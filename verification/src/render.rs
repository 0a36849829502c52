//! What the screen shows, as text and rectangles: the rows of the post
//! list, the status log, the body of the focused post, the rows of the
//! comment tree, and where the panes and pop-ups go.
use vstd::prelude::*;

use crate::app::{FocusItem, FocusItemView};
use crate::helpers::{all_fit, law_wrapped_lines_fit, wrap_words, wrapped, wrapped_count, wrapped_lines};
use crate::model::{opt_text, Post, PostView};
use crate::pane;
use crate::text::{dec, owned, push_decimal, push_str, strs_of};

verus! {

/// A rectangle of terminal cells.
#[derive(Debug, Clone, Copy, PartialEq, Eq, Structural)]
pub struct Rect {
    pub x: u16,
    pub y: u16,
    pub width: u16,
    pub height: u16,
}

/// Whether a rectangle ends within the `u16` coordinate range.
pub open spec fn fits(r: Rect) -> bool {
    r.x + r.width <= 0xffff && r.y + r.height <= 0xffff
}

/// `a - b`, or 0.
pub open spec fn sat_sub(a: u16, b: u16) -> u16 {
    if a >= b {
        (a - b) as u16
    } else {
        0
    }
}

/// The share of the width, in percent, that the post list takes: more
/// while no post is open.
pub fn list_pane_percent(view: pane::View) -> (r: u16)
    ensures
        view == pane::View::List ==> r == 65,
        view == pane::View::Focus ==> r == 35,
{
    match view {
        pane::View::List => 65,
        pane::View::Focus => 35,
    }
}

// ---------------------------------------------------------------------------
// Text
// ---------------------------------------------------------------------------

/// Lines joined with newlines between them.
pub open spec fn join_lines(ls: Seq<Seq<char>>) -> Seq<char>
    decreases ls.len(),
{
    if ls.len() == 0 {
        seq![]
    } else if ls.len() == 1 {
        ls[0]
    } else {
        join_lines(ls.drop_last()) + seq!['\n'] + ls.last()
    }
}

/// Joins lines with newlines between them.
pub fn join_strings(ls: &Vec<String>) -> (r: String)
    ensures
        r@ == join_lines(strs_of(ls@)),
{
    let mut r = String::new();
    let ghost sl = strs_of(ls@);
    let mut i: usize = 0;
    assert(sl.take(0) =~= Seq::<Seq<char>>::empty());
    while i < ls.len()
        invariant
            i <= ls@.len(),
            sl == strs_of(ls@),
            r@ == join_lines(sl.take(i as int)),
        decreases ls.len() - i,
    {
        assert(sl.take(i + 1).drop_last() =~= sl.take(i as int));
        assert(sl.take(i + 1).last() == ls@[i as int]@);
        if i > 0 {
            r.push('\n');
        } else {
            assert(sl.take(1) =~= seq![ls@[0]@]);
            assert(r@ =~= Seq::<char>::empty());
        }
        let ghost before = r@;
        push_str(&mut r, ls[i].as_str());
        if i == 0 {
            assert(r@ =~= ls@[0]@);
        }
        i += 1;
    }
    assert(sl.take(ls@.len() as int) =~= sl);
    r
}

/// The text of a post's row in the list: its title, then its score, its
/// number of comments and its subreddit.
pub open spec fn post_row(p: PostView) -> Seq<char> {
    p.title + "\n↑ "@ + dec(p.score as nat) + " ↓   • "@ + dec(p.num_comments as nat)
        + " comments  • /r/"@ + p.subreddit
}

/// The text of a post's row in the list.
pub fn post_list_text(p: &Post) -> (r: String)
    ensures
        r@ == post_row(p@),
{
    let mut r = p.title.clone();
    push_str(&mut r, "\n↑ ");
    push_decimal(&mut r, p.score as u64);
    push_str(&mut r, " ↓   • ");
    push_decimal(&mut r, p.num_comments as u64);
    push_str(&mut r, " comments  • /r/");
    push_str(&mut r, p.subreddit.as_str());
    r
}

/// The last ten messages (at most), newest first.
pub open spec fn recent_first(ms: Seq<Seq<char>>) -> Seq<Seq<char>> {
    let n = if ms.len() < 10 {
        ms.len()
    } else {
        10
    };
    Seq::new(n, |k: int| ms[ms.len() - 1 - k])
}

/// The status log: the last ten messages, newest first, one per line.
pub fn status_text(messages: &Vec<String>) -> (r: String)
    ensures
        r@ == join_lines(recent_first(strs_of(messages@))),
{
    let n = messages.len();
    let cnt = if n < 10 {
        n
    } else {
        10
    };
    let mut picked: Vec<String> = Vec::new();
    let mut k: usize = 0;
    while k < cnt
        invariant
            n == messages@.len(),
            cnt <= n,
            cnt == if n < 10 {
                n
            } else {
                10
            },
            k <= cnt,
            strs_of(picked@) == recent_first(strs_of(messages@)).take(k as int),
        decreases cnt - k,
    {
        let ghost before = picked@;
        let ghost rf = recent_first(strs_of(messages@));
        picked.push(messages[n - 1 - k].clone());
        assert(strs_of(picked@) =~= strs_of(before).push(messages@[n - 1 - k]@));
        assert(rf[k as int] == strs_of(messages@)[n - 1 - k]);
        assert(rf.take(k + 1) =~= rf.take(k as int).push(rf[k as int]));
        assert(strs_of(picked@) =~= recent_first(strs_of(messages@)).take(k + 1));
        k += 1;
    }
    assert(recent_first(strs_of(messages@)).take(cnt as int) =~= recent_first(strs_of(messages@)));
    join_strings(&picked)
}

/// The body of the focused post: its text (where it has any) and a line
/// with its media link (where it has one), or `(no body)`.
pub open spec fn body_of(p: PostView) -> Seq<char> {
    let t = match p.selftext {
        Some(s) => if s.len() > 0 {
            s + seq!['\n']
        } else {
            seq![]
        },
        None => seq![],
    };
    let b = match p.media_url {
        Some(m) => t + "Media: "@ + m,
        None => t,
    };
    if b.len() == 0 {
        "(no body)"@
    } else {
        b
    }
}

/// The body of the focused post.
pub fn post_body_text(p: &Post) -> (r: String)
    ensures
        r@ == body_of(p@),
{
    let mut body = String::new();
    match &p.selftext {
        Some(s) => {
            if !s.as_str().is_empty() {
                push_str(&mut body, s.as_str());
                body.push('\n');
            }
        },
        None => {},
    }
    match &p.media_url {
        Some(m) => {
            push_str(&mut body, "Media: ");
            push_str(&mut body, m.as_str());
        },
        None => {},
    }
    if body.as_str().is_empty() {
        proof {
            reveal_strlit("(no body)");
        }
        owned("(no body)")
    } else {
        body
    }
}

/// `n` copies of character `c`.
pub open spec fn repeat_char(c: char, n: nat) -> Seq<char> {
    Seq::new(n, |k: int| c)
}

fn push_repeat(s: &mut String, c: char, n: usize)
    ensures
        final(s)@ == old(s)@ + repeat_char(c, n as nat),
{
    let mut k: usize = 0;
    while k < n
        invariant
            k <= n,
            s@ == old(s)@ + repeat_char(c, k as nat),
        decreases n - k,
    {
        s.push(c);
        assert(old(s)@ + repeat_char(c, (k + 1) as nat) =~= (old(s)@ + repeat_char(c, k as nat)).push(
            c,
        ));
        k += 1;
    }
}

/// The marker of a comment row: `[-]` for an expanded comment with
/// replies, `[+]` for a collapsed one, `[/]` for one without replies.
pub open spec fn marker(has_children: bool, expanded: bool) -> Seq<char> {
    if has_children {
        if expanded {
            "[-]"@
        } else {
            "[+]"@
        }
    } else {
        "[/]"@
    }
}

/// The width left for a comment body after the indent, the marker and a
/// space (at least 1).
pub open spec fn content_width(col_width: nat, depth: nat) -> nat {
    let prefix = 2 * depth + 3 + 1;
    if col_width > prefix {
        (col_width - prefix) as nat
    } else {
        1
    }
}

/// The lines of a comment row: the body wrapped to the content width, the
/// first line after the indent and the marker, the others aligned under it;
/// then a line with the author and the score.
pub open spec fn comment_row_lines(it: FocusItemView, expanded: bool, col_width: nat) -> Seq<Seq<char>> {
    let indent = repeat_char(' ', 2 * it.depth);
    let m = marker(it.has_children, expanded);
    let ls = wrapped(it.body, content_width(col_width, it.depth));
    Seq::new(
        ls.len(),
        |k: int|
            if k == 0 {
                indent + m + seq![' '] + ls[k]
            } else {
                indent + repeat_char(' ', 4) + ls[k]
            },
    ).push(indent + "  by "@ + it.author + "  • ↑ "@ + dec(it.score as nat) + " ↓"@)
}

/// The text of a comment row.
pub fn comment_row_text(it: &FocusItem, expanded: bool, col_width: usize) -> (r: String)
    requires
        2 * it.depth + 4 <= usize::MAX,
    ensures
        r@ == join_lines(comment_row_lines(it@, expanded, col_width as nat)),
{
    let m: &str = if it.has_children {
        if expanded {
            "[-]"
        } else {
            "[+]"
        }
    } else {
        "[/]"
    };
    proof {
        reveal_strlit("[-]");
        reveal_strlit("[+]");
        reveal_strlit("[/]");
    }
    assert(m@ == marker(it.has_children, expanded));
    let prefix_len = 2 * it.depth + 3 + 1;
    let cw = if col_width > prefix_len {
        col_width - prefix_len
    } else {
        1
    };
    let lines = wrap_words(it.body.as_str(), cw);
    let ghost ls = wrapped(it.body@, cw as nat);
    let ghost want = comment_row_lines(it@, expanded, col_width as nat);
    let mut out: Vec<String> = Vec::new();
    let mut k: usize = 0;
    while k < lines.len()
        invariant
            k <= lines@.len(),
            strs_of(lines@) == ls,
            ls == wrapped(it.body@, content_width(col_width as nat, it.depth as nat)),
            want == comment_row_lines(it@, expanded, col_width as nat),
            m@ == marker(it.has_children, expanded),
            strs_of(out@) == want.take(k as int),
            want.len() == ls.len() + 1,
            2 * it.depth + 4 <= usize::MAX,
        decreases lines.len() - k,
    {
        let mut line = String::new();
        push_repeat(&mut line, ' ', 2 * it.depth);
        if k == 0 {
            push_str(&mut line, m);
            line.push(' ');
        } else {
            push_repeat(&mut line, ' ', 4);
        }
        push_str(&mut line, lines[k].as_str());
        let ghost before = out@;
        out.push(line);
        proof {
            assert(line@ =~= want[k as int]);
            assert(strs_of(out@) =~= strs_of(before).push(line@));
            assert(want.take(k + 1) =~= want.take(k as int).push(want[k as int]));
        }
        k += 1;
    }
    let mut meta = String::new();
    push_repeat(&mut meta, ' ', 2 * it.depth);
    push_str(&mut meta, "  by ");
    push_str(&mut meta, it.author.as_str());
    push_str(&mut meta, "  • ↑ ");
    push_decimal(&mut meta, it.score as u64);
    push_str(&mut meta, " ↓");
    let ghost before = out@;
    out.push(meta);
    assert(strs_of(out@) =~= strs_of(before).push(meta@));
    assert(want.take(ls.len() as int) =~= want.drop_last());
    assert(meta@ =~= want.last());
    assert(strs_of(out@) =~= want);
    join_strings(&out)
}

// ---------------------------------------------------------------------------
// Geometry
// ---------------------------------------------------------------------------

/// The heights of the title and body boxes of the focused post in a right
/// pane `right`, given the title and body texts: each fits its wrapped
/// text, the title at most half the pane, the body at least three lines.
pub open spec fn focus_heights(title: Seq<char>, body: Seq<char>, right: Rect) -> (u16, u16) {
    let inner_w = sat_sub(right.width, 2);
    let half = sat_sub(right.height, 4) / 2;
    let max_title = if half > 1 {
        half
    } else {
        1
    };
    let tl = wrapped_count(title, inner_w);
    let title_lines = if tl < 1 {
        1
    } else if tl > max_title {
        max_title
    } else {
        tl
    };
    let title_h = if title_lines + 2 > 0xffff {
        0xffff
    } else {
        (title_lines + 2) as u16
    };
    let rest = sat_sub(right.height, (title_h + 3) as u16);
    let max_body = if rest > 1 {
        rest
    } else {
        1
    };
    let bl = wrapped_count(body, inner_w);
    let body_lines = if bl < 3 {
        3
    } else if bl > max_body {
        max_body
    } else {
        bl
    };
    let body_h = if body_lines + 2 > 0xffff {
        0xffff
    } else {
        (body_lines + 2) as u16
    };
    (title_h, body_h)
}

/// Whether the pane leaves room for the three lines of body that the
/// layout asks for (the layout is undefined otherwise).
pub open spec fn focus_layout_defined(title: Seq<char>, right: Rect) -> bool {
    let inner_w = sat_sub(right.width, 2);
    let half = sat_sub(right.height, 4) / 2;
    let max_title = if half > 1 {
        half
    } else {
        1
    };
    let tl = wrapped_count(title, inner_w);
    let title_lines = if tl > max_title {
        max_title
    } else {
        tl
    };
    sat_sub(right.height, (title_lines + 2 + 3) as u16) >= 3
}

fn title_lines_of(title: &str, right: Rect) -> (r: u16)
    ensures
        r == ({
            let half = sat_sub(right.height, 4) / 2;
            let max_title = if half > 1 {
                half
            } else {
                1
            };
            let tl = wrapped_count(title@, sat_sub(right.width, 2));
            if tl > max_title {
                max_title
            } else {
                tl
            }
        }),
        1 <= r <= 0x7fff,
{
    let inner_w = right.width.saturating_sub(2);
    let half = right.height.saturating_sub(4) / 2;
    let max_title = if half > 1 {
        half
    } else {
        1
    };
    let tl = wrapped_lines(title, inner_w);
    if tl > max_title {
        max_title
    } else {
        tl
    }
}

/// Whether the focused-post layout is defined for this title and pane.
pub fn focus_layout_ok(title: &str, right: Rect) -> (b: bool)
    ensures
        b == focus_layout_defined(title@, right),
{
    let tl = title_lines_of(title, right);
    right.height.saturating_sub(tl + 2 + 3) >= 3
}

/// The heights of the title and body boxes of the focused post.
pub fn focus_layout(title: &str, body: &str, right: Rect) -> (r: (u16, u16))
    requires
        focus_layout_defined(title@, right),
    ensures
        r == focus_heights(title@, body@, right),
{
    let inner_w = right.width.saturating_sub(2);
    let title_lines = title_lines_of(title, right);
    let title_h = title_lines.saturating_add(2);
    let rest = right.height.saturating_sub(title_h + 3);
    let max_body = if rest > 1 {
        rest
    } else {
        1
    };
    let bl = wrapped_lines(body, inner_w);
    let body_lines = if bl < 3 {
        3
    } else if bl > max_body {
        max_body
    } else {
        bl
    };
    let body_h = body_lines.saturating_add(2);
    (title_h, body_h)
}

/// A pop-up of height 3 and at most `max_w` wide (and 10 narrower than the
/// area), centred across `area`, its top `up` rows above the middle.
pub open spec fn popup_rect(area: Rect, max_w: u16, up: u16) -> Rect {
    let w0 = sat_sub(area.width, 10);
    let width = if max_w < w0 {
        max_w
    } else {
        w0
    };
    Rect {
        x: (area.x + sat_sub(area.width, width) / 2) as u16,
        y: (area.y + sat_sub(area.height / 2, up)) as u16,
        width,
        height: 3,
    }
}

/// The pop-up rectangle centred across `area`.
pub fn popup(area: Rect, max_w: u16, up: u16) -> (r: Rect)
    requires
        fits(area),
    ensures
        r == popup_rect(area, max_w, up),
{
    let w0 = area.width.saturating_sub(10);
    let width = if max_w < w0 {
        max_w
    } else {
        w0
    };
    Rect {
        x: area.x + area.width.saturating_sub(width) / 2,
        y: area.y + (area.height / 2).saturating_sub(up),
        width,
        height: 3,
    }
}

/// The pop-up that says posts are loading.
pub fn posts_loading_popup(area: Rect) -> (r: Rect)
    requires
        fits(area),
    ensures
        r == popup_rect(area, 50, 1),
{
    popup(area, 50, 1)
}

/// The pop-up that says comments are loading, over the comment box.
pub fn comments_loading_popup(area: Rect) -> (r: Rect)
    requires
        fits(area),
    ensures
        r == popup_rect(area, 40, 1),
{
    popup(area, 40, 1)
}

/// The pop-up of the short-lived notice.
pub fn flash_popup(area: Rect) -> (r: Rect)
    requires
        fits(area),
    ensures
        r == popup_rect(area, 50, 4),
{
    popup(area, 50, 4)
}

/// The text of the help line under the command line.
pub open spec fn help_line() -> Seq<char> {
    "Commands: goto <subreddit>, search <query>, help, home, o, q"@
}

/// Where the command line goes: the cleared area (4 rows), the input box
/// (3 rows) and the help line under it, centred near the bottom of `area`.
pub struct CommandBar {
    pub area: Rect,
    pub input: Rect,
    pub help: Rect,
}

/// The width of the command line: 80 at most and 10 narrower than the
/// area, but the whole area where that would be under 10.
pub open spec fn command_width(area: Rect) -> u16 {
    let w0 = sat_sub(area.width, 10);
    let w = if 80 < w0 {
        80
    } else {
        w0
    };
    if w < 10 {
        area.width
    } else {
        w
    }
}

/// Whether the rows of the command line stay within the `u16` range.
pub open spec fn command_bar_defined(area: Rect) -> bool {
    fits(area) && area.y + sat_sub(area.height, 5) + 3 <= 0xffff
}

/// The command line's rectangles: the cleared area (4 rows) and the input
/// box (3 rows) centred across `area`, 5 rows above its bottom, and the help
/// line under the input box, centred under it and at most as wide as the
/// help text and 4 narrower than the box.
pub open spec fn command_bar_rects(area: Rect) -> CommandBar {
    let w = command_width(area);
    let x = area.x + sat_sub(area.width, w) / 2;
    let y = area.y + sat_sub(area.height, 5);
    let hw0 = sat_sub(w, 4);
    let hw = if hw0 < help_line().len() + 2 {
        hw0 as int
    } else {
        help_line().len() + 2int
    };
    CommandBar {
        area: Rect { x: x as u16, y: y as u16, width: w, height: 4 },
        input: Rect { x: x as u16, y: y as u16, width: w, height: 3 },
        help: Rect { x: (x + (w - hw) / 2) as u16, y: (y + 3) as u16, width: hw as u16, height: 1 },
    }
}

/// The command line's rectangles.
pub fn command_bar(area: Rect) -> (r: CommandBar)
    requires
        command_bar_defined(area),
    ensures
        r == command_bar_rects(area),
{
    let w0 = area.width.saturating_sub(10);
    let mut width: u16 = if 80 < w0 {
        80
    } else {
        w0
    };
    if width < 10 {
        width = area.width;
    }
    let x = area.x + area.width.saturating_sub(width) / 2;
    let y = area.y + area.height.saturating_sub(5);
    proof {
        reveal_strlit("Commands: goto <subreddit>, search <query>, help, home, o, q");
    }
    let help_len: u16 = 60;
    assert(help_line().len() == 60);
    let hw0 = width.saturating_sub(4);
    let help_w = if hw0 < help_len + 2 {
        hw0
    } else {
        help_len + 2
    };
    let hx = x + width.saturating_sub(help_w) / 2;
    CommandBar {
        area: Rect { x, y, width, height: 4 },
        input: Rect { x, y, width, height: 3 },
        help: Rect { x: hx, y: y + 3, width: help_w, height: 1 },
    }
}


// ---------------------------------------------------------------------------
// Laws of the layout
// ---------------------------------------------------------------------------

/// Where the column holds the indent (two cells a level), the marker and a
/// space, every body line of a comment row fits the column; the row has at
/// least one body line and ends with the author line.
pub proof fn law_comment_rows_fit(it: FocusItemView, expanded: bool, col_width: nat)
    requires
        col_width > 2 * it.depth + 4,
    ensures
        ({
            let ls = comment_row_lines(it, expanded, col_width);
            &&& ls.len() >= 2
            &&& forall|k: int| 0 <= k < ls.len() - 1 ==> #[trigger] ls[k].len() <= col_width
        }),
{
    let cw = content_width(col_width, it.depth);
    assert(cw + 2 * it.depth + 4 == col_width);
    law_wrapped_lines_fit(it.body, cw);
    let w = wrapped(it.body, cw);
    let ls = comment_row_lines(it, expanded, col_width);
    reveal_strlit("[-]");
    reveal_strlit("[+]");
    reveal_strlit("[/]");
    let m = marker(it.has_children, expanded);
    assert(m.len() == 3);
    let indent = repeat_char(' ', 2 * it.depth);
    assert(ls.len() == w.len() + 1);
    assert forall|k: int| 0 <= k < ls.len() - 1 implies #[trigger] ls[k].len() <= col_width by {
        assert(w[k].len() <= cw);
        if k == 0 {
            assert(ls[k] == indent + m + seq![' '] + w[k]);
        } else {
            assert(ls[k] == indent + repeat_char(' ', 4) + w[k]);
        }
    }
}

/// Where the layout is defined, the title and body boxes leave room for the
/// comment box below them (`title + body + 1 <= height`, that is, the body
/// box is at most two rows taller than what is left after the title and
/// three rows), the title box takes at most half the pane (plus its
/// borders), both boxes show at least their minimum, and the body box shows
/// all of its text where it fits.
pub proof fn law_focus_boxes_leave_room(title: Seq<char>, body: Seq<char>, right: Rect)
    requires
        focus_layout_defined(title, right),
    ensures
        ({
            let (t, b) = focus_heights(title, body, right);
            let half = if right.height >= 4 {
                (right.height - 4) / 2
            } else {
                0
            };
            let text_rows = wrapped_count(body, sat_sub(right.width, 2));
            &&& t >= 3
            &&& b >= 5
            &&& t + b + 1 <= right.height
            &&& t <= if half > 1 {
                half + 2
            } else {
                3
            }
            &&& text_rows + t + 3 <= right.height ==> b >= text_rows + 2
        }),
{
}


/// The body of the focused post is its self text (where it has a non-empty
/// one) followed by a newline, then `Media: ` and the media link (where it
/// has one); `(no body)` where it has neither.
pub proof fn law_body_text(p: PostView)
    ensures
        ({
            let text = match p.selftext {
                Some(s) => if s.len() > 0 {
                    Some(s)
                } else {
                    None
                },
                None => None,
            };
            &&& (text matches Some(s) ==> (p.media_url is None ==> body_of(p) == s + seq!['\n']))
            &&& (text matches Some(s) ==> (p.media_url matches Some(m) ==> body_of(p) == s + seq!['\n']
                + "Media: "@ + m))
            &&& (text is None ==> (p.media_url matches Some(m) ==> body_of(p) == "Media: "@ + m))
            &&& (text is None && p.media_url is None ==> body_of(p) == "(no body)"@)
        }),
{
    reveal_strlit("Media: ");
    if let Some(m) = p.media_url {
        assert(("Media: "@ + m).len() > 0);
    }
}

/// The status log shows the last ten messages (all of them where there are
/// fewer), newest first.
pub proof fn law_status_newest_first(ms: Seq<Seq<char>>)
    ensures
        recent_first(ms).len() == if ms.len() < 10 {
            ms.len()
        } else {
            10
        },
        forall|k: int| 0 <= k < recent_first(ms).len() ==> #[trigger] recent_first(ms)[k] == ms[ms.len() - 1 - k],
{
}

/// A pop-up lies within the width of its area, is centred across it (the
/// margins differ by at most one cell), is 3 rows high and at most `max_w`
/// wide, leaves at least 10 columns of the area free, and starts at or
/// above the middle of the area, within it.
pub proof fn law_popup_placed(area: Rect, max_w: u16, up: u16)
    requires
        fits(area),
    ensures
        ({
            let r = popup_rect(area, max_w, up);
            let left = r.x - area.x;
            let right = area.x + area.width - (r.x + r.width);
            &&& r.height == 3
            &&& r.width <= max_w
            &&& r.width + 10 <= area.width || r.width == 0
            &&& area.x <= r.x
            &&& r.x + r.width <= area.x + area.width
            &&& left <= right <= left + 1
            &&& area.y <= r.y <= area.y + area.height / 2
        }),
{
}

/// The command line lies within the width of its area, centred across it
/// (the margins differ by at most one cell); it is at most 80 wide and
/// leaves 10 columns free, unless that would make it narrower than 10, when
/// it takes the whole width; its input box is its top 3 rows and the help
/// line its fourth row, within the box's width.
pub proof fn law_command_bar_placed(area: Rect)
    requires
        command_bar_defined(area),
    ensures
        ({
            let b = command_bar_rects(area);
            let w = b.area.width;
            let left = b.area.x - area.x;
            let right = area.x + area.width - (b.area.x + w);
            &&& area.x <= b.area.x
            &&& b.area.x + w <= area.x + area.width
            &&& left <= right <= left + 1
            &&& (w <= 80 && w + 10 <= area.width && w >= 10) || w == area.width
            &&& b.area.height == 4 && b.input.height == 3 && b.help.height == 1
            &&& b.input.x == b.area.x && b.input.y == b.area.y && b.input.width == w
            &&& b.help.y == b.area.y + 3
            &&& b.area.x <= b.help.x && b.help.x + b.help.width <= b.area.x + w
            &&& area.y <= b.area.y
        }),
{
    reveal_strlit("Commands: goto <subreddit>, search <query>, help, home, o, q");
    assert(help_line().len() == 60);
}

} // verus!
