//! The state of the browser: the post list, the focused post with its
//! comment tree (shown flattened, with expandable nodes), the command line
//! and the status messages; and how commands, keys and loaded content change
//! it.
use vstd::prelude::*;

use crate::fetch::{build_search_url, search_url};
use crate::model::{comment_view, comments_view, lemma_comments_view, Comment, CommentView, Post};
use crate::fetch::{describes, FetchError};
use crate::model::opt_text;
use crate::text::{
    chars_eq, chars_start_with, slice_chars, chars_of, dec, lines, owned, push_chars, push_decimal, push_str, starts_with, str_starts_with,
    string_of, string_of_range, strs_of, trim, trim_chars, ws_pos, is_whitespace, lemma_ws_pos_bound,
};

use crate::pane;

verus! {

/// One visible row of the flattened comment tree.
#[derive(Debug)]
pub struct FocusItem {
    pub body: String,
    pub author: String,
    pub score: u32,
    /// The position of the comment in the tree: the indices from the top,
    /// joined by dots (`"0"`, `"0.1"`, ...).
    pub path: String,
    pub depth: usize,
    pub has_children: bool,
}

/// The content of a visible row.
pub struct FocusItemView {
    pub body: Seq<char>,
    pub author: Seq<char>,
    pub score: u32,
    pub path: Seq<char>,
    pub depth: nat,
    pub has_children: bool,
}

impl View for FocusItem {
    type V = FocusItemView;

    open spec fn view(&self) -> FocusItemView {
        FocusItemView {
            body: self.body@,
            author: self.author@,
            score: self.score,
            path: self.path@,
            depth: self.depth as nat,
            has_children: self.has_children,
        }
    }
}

/// The contents of a sequence of rows.
pub open spec fn items_view(s: Seq<FocusItem>) -> Seq<FocusItemView> {
    s.map_values(|f: FocusItem| f@)
}

/// The set of expanded paths that a list of paths holds.
pub open spec fn path_set(v: Seq<String>) -> Set<Seq<char>> {
    strs_of(v).to_set()
}

/// The path of child `i` under the node with path `prefix` (the top has the
/// empty path).
pub open spec fn path_text(prefix: Seq<char>, i: nat) -> Seq<char> {
    if prefix.len() == 0 {
        dec(i)
    } else {
        prefix + seq!['.'] + dec(i)
    }
}

/// A comment body shortened to 400 characters, with `...` after a cut.
pub open spec fn snip(body: Seq<char>) -> Seq<char> {
    if body.len() > 400 {
        body.take(400) + "..."@
    } else {
        body
    }
}

/// The row that shows comment `c` at `path` and `depth`.
pub open spec fn item_of(c: CommentView, path: Seq<char>, depth: nat) -> FocusItemView {
    FocusItemView {
        body: snip(c.body),
        author: c.author,
        score: c.score,
        path,
        depth,
        has_children: c.replies.len() > 0,
    }
}

/// The rows of the comments `cs` under the node with path `prefix` at
/// `depth`: each comment in order, followed by the rows of its replies when
/// it has replies and its path is expanded.
pub open spec fn walk(cs: Seq<CommentView>, prefix: Seq<char>, depth: nat, exp: Set<Seq<char>>) -> Seq<
    FocusItemView,
>
    decreases cs,
{
    if cs.len() == 0 {
        seq![]
    } else {
        let i = (cs.len() - 1) as nat;
        let c = cs.last();
        let p = path_text(prefix, i);
        walk(cs.drop_last(), prefix, depth, exp) + seq![item_of(c, p, depth)] + if c.replies.len()
            > 0 && exp.contains(p) {
            walk(c.replies, p, depth + 1, exp)
        } else {
            seq![]
        }
    }
}

/// The height of a comment forest (0 for no comments).
pub open spec fn height(cs: Seq<CommentView>) -> nat
    decreases cs,
{
    if cs.len() == 0 {
        0
    } else {
        let h = height(cs.drop_last());
        let k = 1 + height(cs.last().replies);
        if h > k {
            h
        } else {
            k
        }
    }
}

pub proof fn lemma_height(cs: Seq<CommentView>, i: int)
    requires
        0 <= i < cs.len(),
    ensures
        1 + height(cs[i].replies) <= height(cs),
        height(cs.take(i)) <= height(cs),
    decreases cs.len(),
{
    if i < cs.len() - 1 {
        lemma_height(cs.drop_last(), i);
        assert(cs.drop_last()[i] == cs[i]);
        assert(cs.drop_last().take(i) =~= cs.take(i));
    } else {
        assert(cs.take(i) =~= cs.drop_last());
    }
}

/// The rows of the whole comment tree.
pub open spec fn rows(cs: Seq<CommentView>, exp: Set<Seq<char>>) -> Seq<FocusItemView> {
    walk(cs, seq![], 0, exp)
}

/// The first row whose path is `p`, or -1.
pub open spec fn first_row_with_path(items: Seq<FocusItemView>, p: Seq<char>) -> int
    decreases items.len(),
{
    if items.len() == 0 {
        -1
    } else {
        let k = first_row_with_path(items.drop_last(), p);
        if k >= 0 {
            k
        } else if items.last().path == p {
            items.len() - 1
        } else {
            -1
        }
    }
}

pub proof fn lemma_first_row(items: Seq<FocusItemView>, p: Seq<char>)
    ensures
        -1 <= first_row_with_path(items, p) < items.len(),
        first_row_with_path(items, p) >= 0 ==> items[first_row_with_path(items, p)].path == p,
        forall|j: int|
            0 <= j < items.len() && (first_row_with_path(items, p) < 0 || j < first_row_with_path(
                items,
                p,
            )) ==> items[j].path != p,
    decreases items.len(),
{
    if items.len() > 0 {
        lemma_first_row(items.drop_last(), p);
        assert forall|j: int|
            0 <= j < items.len() && (first_row_with_path(items, p) < 0 || j < first_row_with_path(
                items,
                p,
            )) implies items[j].path != p by {
            if j < items.len() - 1 {
                assert(items.drop_last()[j] == items[j]);
            }
        }
    }
}

/// Whether some row shows a reply (at any depth) under the node with path
/// `p`, judged by the rows' paths.
pub open spec fn has_row_below(items: Seq<FocusItemView>, p: Seq<char>) -> bool {
    exists|j: int| 0 <= j < items.len() && starts_with(#[trigger] items[j].path, p + seq!['.'])
}

/// An action that the state asks of the program around it.
#[derive(Debug)]
pub enum Action {
    /// Nothing to do.
    Nothing,
    /// Leave the program.
    Quit,
    /// Log the command, then load the post listing at `url` in the
    /// background.
    LoadPosts { url: String, command: String },
    /// Load the comments of the thread at `url` in the background.
    LoadComments { url: String },
}

/// A key press, as the state reads it.
#[derive(Debug, Clone, Copy, PartialEq, Eq, Structural)]
pub enum Key {
    Char { ch: char, ctrl: bool },
    Backspace,
    Esc,
    Enter,
    Up,
    Down,
    Other,
}

/// The address of the reddit front page listing.
pub open spec fn home_url() -> Seq<char> {
    "https://www.reddit.com/.json"@
}

/// The first word of a command (up to its first whitespace character).
pub open spec fn command_action(cmd: Seq<char>) -> Seq<char> {
    cmd.take(ws_pos(cmd) as int)
}

/// The argument of a command: what follows its first whitespace character,
/// trimmed.
pub open spec fn command_rest(cmd: Seq<char>) -> Seq<char> {
    if ws_pos(cmd) < cmd.len() {
        trim(cmd.skip(ws_pos(cmd) as int + 1))
    } else {
        seq![]
    }
}

/// The listing address that a (trimmed, non-empty) command asks for.
pub open spec fn command_target(cmd: Seq<char>) -> Option<Seq<char>> {
    let a = command_action(cmd);
    let r = command_rest(cmd);
    if a == "home"@ || a == "/"@ {
        Some(home_url())
    } else if a == "goto"@ {
        if r.len() == 0 {
            None
        } else if starts_with(r, "r/"@) {
            Some("https://www.reddit.com/"@ + r + ".json"@)
        } else {
            Some("https://www.reddit.com/r/"@ + r + "/.json"@)
        }
    } else if a == "search"@ {
        if r.len() == 0 {
            None
        } else {
            Some(search_url(r))
        }
    } else {
        None
    }
}

/// The notice that a (trimmed, non-empty) command that asks for no listing
/// shows.
pub open spec fn command_notice(cmd: Seq<char>) -> Seq<char> {
    let a = command_action(cmd);
    if a == "goto"@ {
        "Usage: goto <subreddit>"@
    } else if a == "search"@ {
        "Usage: search <query>"@
    } else {
        "Unknown command. Use 'goto <subreddit>' or 'search <query>'"@
    }
}

/// The address of the comment thread of a post.
pub open spec fn thread_url(perma_link: Seq<char>) -> Seq<char> {
    "https://www.reddit.com"@ + perma_link + ".json"@
}

/// The state of the browser.
pub struct App {
    pub command_mode: bool,
    pub input: String,
    pub messages: Vec<String>,
    pub view: pane::View,
    pub posts: Vec<Post>,
    pub list_selected: usize,
    pub focused: Option<Post>,
    pub comments: Vec<Comment>,
    /// The flattened, visible part of the comment tree.
    pub focus_items: Vec<FocusItem>,
    pub focus_selected: usize,
    /// The paths of the expanded comments.
    pub expanded: Vec<String>,
    pub loading_posts: bool,
    pub loading_comments: bool,
    /// A short-lived notice, shown for `flash_ttl` more frames.
    pub flash_message: Option<String>,
    pub flash_ttl: u8,
}

proof fn lemma_push_no_dup(s: Seq<Seq<char>>, x: Seq<char>)
    requires
        s.no_duplicates(),
        !s.contains(x),
    ensures
        s.push(x).no_duplicates(),
{
    assert forall|i: int, j: int|
        0 <= i < s.push(x).len() && 0 <= j < s.push(x).len() && i != j implies s.push(x)[i]
        != s.push(x)[j] by {
        if i == s.len() {
            assert(s[j] == s.push(x)[j]);
        } else if j == s.len() {
            assert(s[i] == s.push(x)[i]);
        }
    }
}

/// Whether the path list holds `p`.
fn contains_path(v: &Vec<String>, p: &String) -> (b: bool)
    ensures
        b == path_set(v@).contains(p@),
{
    let mut i: usize = 0;
    while i < v.len()
        invariant
            i <= v@.len(),
            forall|j: int| 0 <= j < i ==> v@[j]@ != p@,
        decreases v.len() - i,
    {
        if v[i] == *p {
            assert(strs_of(v@)[i as int] == p@);
            return true;
        }
        i += 1;
    }
    assert(!strs_of(v@).contains(p@));
    false
}

/// The path list without `p`.
fn without_path(v: &Vec<String>, p: &String) -> (r: Vec<String>)
    ensures
        path_set(r@) == path_set(v@).remove(p@),
        strs_of(v@).no_duplicates() ==> strs_of(r@).no_duplicates(),
{
    let mut r: Vec<String> = Vec::new();
    let mut i: usize = 0;
    while i < v.len()
        invariant
            i <= v@.len(),
            forall|x: Seq<char>|
                strs_of(r@).contains(x) <==> x != p@ && strs_of(v@.take(i as int)).contains(x),
            strs_of(v@).no_duplicates() ==> strs_of(r@).no_duplicates(),
        decreases v.len() - i,
    {
        let ghost before = r@;
        if v[i] != *p {
            proof {
                if strs_of(v@).no_duplicates() {
                    assert(!strs_of(v@.take(i as int)).contains(v@[i as int]@)) by {
                        if strs_of(v@.take(i as int)).contains(v@[i as int]@) {
                            let k = choose|k: int|
                                0 <= k < strs_of(v@.take(i as int)).len() && strs_of(v@.take(i as int))[k]
                                    == v@[i as int]@;
                            assert(strs_of(v@)[k] == strs_of(v@)[i as int]);
                        }
                    }
                    lemma_push_no_dup(strs_of(r@), v@[i as int]@);
                }
            }
            r.push(v[i].clone());
            assert(strs_of(r@) =~= strs_of(before).push(v@[i as int]@));
        }
        proof {
            broadcast use vstd::seq_lib::lemma_seq_contains_after_push;
            assert forall|x: Seq<char>|
                strs_of(r@).contains(x) <==> x != p@ && strs_of(v@.take(i + 1)).contains(x) by {
                assert(strs_of(v@.take(i + 1)) =~= strs_of(v@.take(i as int)).push(v@[i as int]@));
                if v@[i as int]@ != p@ {
                    assert(strs_of(r@) =~= strs_of(before).push(v@[i as int]@));
                } else {
                    assert(strs_of(r@) =~= strs_of(before));
                }
            }
        }
        i += 1;
    }
    assert(v@.take(v@.len() as int) =~= v@);
    assert(path_set(r@) =~= path_set(v@).remove(p@));
    r
}

/// Shortens a comment body to 400 characters, with `...` after a cut.
fn snip_body(body: &String) -> (r: String)
    ensures
        r@ == snip(body@),
{
    let v = chars_of(body.as_str());
    if v.len() > 400 {
        let mut s = string_of_range(&v, 0, 400);
        push_str(&mut s, "...");
        s
    } else {
        body.clone()
    }
}

/// The path of child `i` under `prefix`.
fn child_path(prefix: &String, i: usize) -> (r: String)
    ensures
        r@ == path_text(prefix@, i as nat),
{
    let pv = chars_of(prefix.as_str());
    if pv.len() == 0 {
        crate::text::decimal(i as u64)
    } else {
        let mut s = prefix.clone();
        s.push('.');
        push_decimal(&mut s, i as u64);
        s
    }
}

/// Appends the rows of the comments `cs` under `prefix` at `depth`.
fn walk_into(
    cs: &Vec<Comment>,
    out: &mut Vec<FocusItem>,
    prefix: &String,
    depth: usize,
    expanded: &Vec<String>,
)
    requires
        depth + height(comments_view(cs@)) <= usize::MAX,
    ensures
        items_view(final(out)@) == items_view(old(out)@) + walk(
            comments_view(cs@),
            prefix@,
            depth as nat,
            path_set(expanded@),
        ),
    decreases cs@,
{
    let ghost cv = comments_view(cs@);
    let ghost exp = path_set(expanded@);
    proof {
        lemma_comments_view(cs@);
        assert(cv.take(0) =~= Seq::<CommentView>::empty());
    }
    let mut i: usize = 0;
    while i < cs.len()
        invariant
            i <= cs@.len(),
            cv == comments_view(cs@),
            cv.len() == cs@.len(),
            forall|k: int| 0 <= k < cs@.len() ==> #[trigger] cv[k] == comment_view(cs@[k]),
            exp == path_set(expanded@),
            depth + height(cv) <= usize::MAX,
            items_view(out@) == items_view(old(out)@) + walk(cv.take(i as int), prefix@, depth as nat, exp),
        decreases cs.len() - i,
    {
        let c = &cs[i];
        let path = child_path(prefix, i);
        let has_children = c.replies.len() > 0;
        let ghost cvi = cv[i as int];
        proof {
            lemma_height(cv, i as int);
            assert(cv.take(i + 1).drop_last() =~= cv.take(i as int));
            assert(cv.take(i + 1).last() == cvi);
            lemma_comments_view(c.replies@);
            assert(cvi.replies == comments_view(c.replies@));
        }
        let item = FocusItem {
            body: snip_body(&c.body),
            author: c.author.clone(),
            score: c.score,
            path: path.clone(),
            depth,
            has_children,
        };
        let ghost before = out@;
        out.push(item);
        assert(items_view(out@) =~= items_view(before).push(item_of(cvi, path@, depth as nat)));
        let ghost mid = out@;
        if has_children && contains_path(expanded, &path) {
            proof {
                assert(decreases_to!(cs@ => cs@[i as int]));
                assert(decreases_to!(cs@[i as int] => cs@[i as int].replies));
                assert(decreases_to!(cs@[i as int].replies => cs@[i as int].replies@));
            }
            walk_into(&c.replies, out, &path, depth + 1, expanded);
        }
        proof {
            let w = walk(cv.take(i as int), prefix@, depth as nat, exp);
            assert(walk(cv.take(i + 1), prefix@, depth as nat, exp) == w + seq![
                item_of(cvi, path@, depth as nat),
            ] + if cvi.replies.len() > 0 && exp.contains(path@) {
                walk(cvi.replies, path@, depth as nat + 1, exp)
            } else {
                seq![]
            });
            if !(has_children && exp.contains(path@)) {
                assert(items_view(out@) =~= items_view(mid) + Seq::<FocusItemView>::empty());
            }
            assert(items_view(out@) =~= items_view(old(out)@) + walk(
                cv.take(i + 1),
                prefix@,
                depth as nat,
                exp,
            ));
        }
        i += 1;
    }
    assert(cv.take(cs@.len() as int) =~= cv);
}

impl App {
    /// A state with nothing loaded: the post list shown, no command typed.
    pub fn new() -> (app: App)
        ensures
            !app.command_mode,
            app.input@.len() == 0,
            app.messages@.len() == 0,
            app.view == pane::View::List,
            app.posts@.len() == 0,
            app.list_selected == 0,
            app.focused is None,
            app.comments@.len() == 0,
            app.focus_items@.len() == 0,
            app.focus_selected == 0,
            app.expanded@.len() == 0,
            !app.loading_posts,
            !app.loading_comments,
            app.flash_message is None,
            app.flash_ttl == 0,
            app.well_formed(),
    {
        assert(items_view(Seq::<FocusItem>::empty()) =~= Seq::<FocusItemView>::empty());
        App {
            command_mode: false,
            input: String::new(),
            messages: Vec::new(),
            view: pane::View::List,
            posts: Vec::new(),
            list_selected: 0,
            focused: None,
            comments: Vec::new(),
            focus_items: Vec::new(),
            focus_selected: 0,
            expanded: Vec::new(),
            loading_posts: false,
            loading_comments: false,
            flash_message: None,
            flash_ttl: 0,
        }
    }

    /// Whether the comment at `path` is expanded.
    pub fn is_expanded(&self, path: &str) -> (b: bool)
        ensures
            b == path_set(self.expanded@).contains(path@),
    {
        contains_path(&self.expanded, &owned(path))
    }

    /// Whether the rows show the comment tree with the expanded paths.
    pub open spec fn consistent(self) -> bool {
        items_view(self.focus_items@) == rows(comments_view(self.comments@), path_set(self.expanded@))
    }

    /// The state's invariant: the rows show the comment tree with the
    /// expanded paths, no path is listed as expanded twice, and each
    /// selection points at an existing post or row (where there is any).
    pub open spec fn well_formed(self) -> bool {
        &&& self.consistent()
        &&& strs_of(self.expanded@).no_duplicates()
        &&& self.posts@.len() == 0 || self.list_selected < self.posts@.len()
        &&& self.focus_items@.len() == 0 || self.focus_selected < self.focus_items@.len()
    }

    /// Whether the comment tree is shallow enough for its depths to be
    /// counted in a `usize`.
    pub open spec fn comments_fit(self) -> bool {
        height(comments_view(self.comments@)) <= usize::MAX
    }

    /// Rebuilds the rows from the comment tree and the expanded paths; the
    /// selection goes back to the first row when it falls off the end.
    pub fn build_focus_items(&mut self)
        requires
            old(self).comments_fit(),
        ensures
            items_view(final(self).focus_items@) == rows(
                comments_view(final(self).comments@),
                path_set(final(self).expanded@),
            ),
            old(self).focus_selected >= final(self).focus_items@.len() ==> final(self).focus_selected
                == 0,
            old(self).focus_selected < final(self).focus_items@.len() ==> final(self).focus_selected
                == old(self).focus_selected,
            final(self).comments == old(self).comments,
            final(self).expanded == old(self).expanded,
            final(self).command_mode == old(self).command_mode,
            final(self).input == old(self).input,
            final(self).messages == old(self).messages,
            final(self).view == old(self).view,
            final(self).posts == old(self).posts,
            final(self).list_selected == old(self).list_selected,
            final(self).focused == old(self).focused,
            final(self).loading_posts == old(self).loading_posts,
            final(self).loading_comments == old(self).loading_comments,
            final(self).flash_message == old(self).flash_message,
            final(self).flash_ttl == old(self).flash_ttl,
    {
        let mut out: Vec<FocusItem> = Vec::new();
        let top = String::new();
        walk_into(&self.comments, &mut out, &top, 0, &self.expanded);
        assert(items_view(out@) =~= rows(comments_view(self.comments@), path_set(self.expanded@)));
        self.focus_items = out;
        if self.focus_selected >= self.focus_items.len() {
            self.focus_selected = 0;
        }
    }

    /// Opens the selected post (the last one if the selection is past the
    /// end) with its comments not yet loaded; nothing happens without posts.
    pub fn open_focused(&mut self)
        ensures
            opened(*old(self), *final(self)),
    {
        if self.posts.len() == 0 {
            return;
        }
        let idx = if self.list_selected < self.posts.len() - 1 {
            self.list_selected
        } else {
            self.posts.len() - 1
        };
        let p = self.posts[idx].duplicate();
        self.focus_selected = 0;
        self.comments = Vec::new();
        self.focus_items = Vec::new();
        self.expanded = Vec::new();
        self.focused = Some(p);
        self.view = pane::View::Focus;
    }

    /// Toggles the selected row: a comment with replies is expanded or
    /// collapsed (an expansion that shows no reply is undone) and stays
    /// selected; for a comment without replies its body is added to the
    /// messages.
    pub fn toggle_selected(&mut self)
        requires
            old(self).comments_fit(),
        ensures
            toggled(*old(self), *final(self)),
    {
        if self.focus_items.len() == 0 {
            return;
        }
        let idx = self.focus_selected;
        if idx >= self.focus_items.len() {
            return;
        }
        let path = self.focus_items[idx].path.clone();
        let has_children = self.focus_items[idx].has_children;
        let ghost e0 = path_set(self.expanded@);
        let ghost nd0 = strs_of(self.expanded@).no_duplicates();
        let ghost p = path@;
        if has_children {
            if contains_path(&self.expanded, &path) {
                self.expanded = without_path(&self.expanded, &path);
            } else {
                let ghost before = self.expanded@;
                self.expanded.push(path.clone());
                proof {
                    assert(strs_of(self.expanded@) =~= strs_of(before) + seq![p]);
                    Seq::<Seq<char>>::lemma_to_set_insert_commutes(strs_of(before), p);
                    if strs_of(before).no_duplicates() {
                        lemma_push_no_dup(strs_of(before), p);
                        assert(strs_of(before).push(p) =~= strs_of(self.expanded@));
                    }
                }
            }
            assert(nd0 ==> strs_of(self.expanded@).no_duplicates());
            let ghost e1 = path_set(self.expanded@);
            assert(e1 == if e0.contains(p) { e0.remove(p) } else { e0.insert(p) });
            self.build_focus_items();
            let mut child_prefix = path.clone();
            child_prefix.push('.');
            let mut found = false;
            let mut j: usize = 0;
            while j < self.focus_items.len()
                invariant
                    j <= self.focus_items@.len(),
                    path@ == p,
                    child_prefix@ == p + seq!['.'],
                    found <==> exists|k: int|
                        0 <= k < j && starts_with(#[trigger] self.focus_items@[k].path@, p + seq!['.']),
                decreases self.focus_items.len() - j,
            {
                if str_starts_with(self.focus_items[j].path.as_str(), child_prefix.as_str()) {
                    found = true;
                }
                j += 1;
            }
            proof {
                let r1 = items_view(self.focus_items@);
                if found {
                    let k = choose|k: int|
                        0 <= k < self.focus_items@.len() && starts_with(
                            #[trigger] self.focus_items@[k].path@,
                            p + seq!['.'],
                        );
                    assert(r1[k].path == self.focus_items@[k].path@);
                }
                if has_row_below(r1, p) {
                    let k = choose|k: int| 0 <= k < r1.len() && starts_with(#[trigger] r1[k].path, p + seq!['.']);
                    assert(r1[k].path == self.focus_items@[k].path@);
                }
                assert(found == has_row_below(r1, p));
            }
            if !found {
                self.expanded = without_path(&self.expanded, &path);
                self.build_focus_items();
            }
            let ghost r2 = items_view(self.focus_items@);
            proof {
                lemma_first_row(r2, p);
            }
            let mut pos: usize = 0;
            let mut hit = false;
            while pos < self.focus_items.len() && !hit
                invariant
                    pos <= self.focus_items@.len(),
                    path@ == p,
                    r2 == items_view(self.focus_items@),
                    -1 <= first_row_with_path(r2, p) < r2.len(),
                    first_row_with_path(r2, p) >= 0 ==> r2[first_row_with_path(r2, p)].path == p,
                    forall|q: int|
                        0 <= q < r2.len() && (first_row_with_path(r2, p) < 0 || q < first_row_with_path(
                            r2,
                            p,
                        )) ==> r2[q].path != p,
                    hit ==> pos == first_row_with_path(r2, p),
                    !hit ==> first_row_with_path(r2, p) < 0 || pos <= first_row_with_path(r2, p),
                decreases self.focus_items.len() - pos, if hit { 0int } else { 1int },
            {
                if self.focus_items[pos].path == path {
                    assert(r2[pos as int].path == p);
                    hit = true;
                } else {
                    assert(r2[pos as int].path != p);
                    pos += 1;
                }
            }
            if hit {
                self.focus_selected = pos;
            } else {
                self.focus_selected = 0;
            }
        } else {
            let mut m = owned("Comment selected: ");
            push_str(&mut m, self.focus_items[idx].body.as_str());
            let ghost before = self.messages@;
            self.messages.push(m);
            assert(strs_of(self.messages@) =~= strs_of(before).push(m@));
        }
    }

    /// Submits the command line.  `q` asks to quit and changes nothing;
    /// otherwise the command line is cleared and closed, and the listing
    /// address that the command asks for is returned: `home` (or `/`), `goto
    /// <subreddit>` (or `goto r/<subreddit>`) and `search <query>`.  A command
    /// that asks for nothing shows a notice for 30 frames.
    pub fn submit_command(&mut self) -> (r: (bool, Option<String>))
        ensures
            submitted(*old(self), *final(self), r),
    {
        let v = chars_of(self.input.as_str());
        let cmd = trim_chars(&v);
        if chars_eq(&cmd, "q") {
            return (true, None);
        }
        if cmd.len() == 0 {
            self.input = String::new();
            self.command_mode = false;
            return (false, None);
        }
        let mut k: usize = 0;
        while k < cmd.len() && !is_whitespace(cmd[k])
            invariant
                k <= cmd@.len(),
                forall|j: int| 0 <= j < k ==> !crate::text::is_ws(#[trigger] cmd@[j]),
            decreases cmd.len() - k,
        {
            k += 1;
        }
        proof {
            lemma_ws_pos_bound(cmd@);
            let w = ws_pos(cmd@);
            if (k as int) < w {
                assert(!crate::text::is_ws(cmd@[k as int]));
            }
            if (k as int) > w {
                assert(!crate::text::is_ws(cmd@[w as int]));
            }
            assert(k == ws_pos(cmd@));
        }
        let action = slice_chars(&cmd, 0, k);
        assert(action@ =~= command_action(cmd@));
        let rest: Vec<char> = if k < cmd.len() {
            let tail = slice_chars(&cmd, k + 1, cmd.len());
            assert(tail@ =~= cmd@.skip(k as int + 1));
            trim_chars(&tail)
        } else {
            Vec::new()
        };
        assert(rest@ =~= command_rest(cmd@));
        let target: Option<String> = if chars_eq(&action, "home") || chars_eq(&action, "/") {
            Some(owned("https://www.reddit.com/.json"))
        } else if chars_eq(&action, "goto") {
            if rest.len() == 0 {
                self.flash_message = Some(owned("Usage: goto <subreddit>"));
                self.flash_ttl = 30;
                None
            } else if chars_start_with(&rest, &chars_of("r/")) {
                let mut t = owned("https://www.reddit.com/");
                push_chars(&mut t, &rest);
                push_str(&mut t, ".json");
                Some(t)
            } else {
                let mut t = owned("https://www.reddit.com/r/");
                push_chars(&mut t, &rest);
                push_str(&mut t, "/.json");
                Some(t)
            }
        } else if chars_eq(&action, "search") {
            if rest.len() == 0 {
                self.flash_message = Some(owned("Usage: search <query>"));
                self.flash_ttl = 30;
                None
            } else {
                let q = string_of(&rest);
                Some(build_search_url(q.as_str()))
            }
        } else {
            self.flash_message = Some(
                owned("Unknown command. Use 'goto <subreddit>' or 'search <query>'"),
            );
            self.flash_ttl = 30;
            None
        };
        self.input = String::new();
        self.command_mode = false;
        (false, target)
    }

    /// Takes in the result of loading a post listing: the posts replace
    /// the list (selection at the top) and their number is reported, or the
    /// failure is reported.
    pub fn on_posts_loaded(&mut self, result: Result<Vec<Post>, FetchError>)
        ensures
            posts_loaded(*old(self), *final(self), result),
    {
        self.loading_posts = false;
        match result {
            Ok(posts) => {
                let n = posts.len();
                self.posts = posts;
                self.list_selected = 0;
                let mut m = owned("Loaded ");
                push_decimal(&mut m, n as u64);
                push_str(&mut m, " posts");
                let ghost before = self.messages@;
                self.messages.push(m);
                assert(strs_of(self.messages@) =~= strs_of(before).push(m@));
            },
            Err(e) => {
                let mut m = owned("Failed to load posts: ");
                let t = e.message();
                push_str(&mut m, t.as_str());
                let ghost before = self.messages@;
                self.messages.push(m);
                assert(strs_of(self.messages@) =~= strs_of(before).push(m@));
                assert(m@ == "Failed to load posts: "@ + t@);
            },
        }
    }

    /// Takes in the result of loading a comment thread: the comments replace
    /// the tree, all collapsed, and their number is reported, or the failure
    /// is reported.
    pub fn on_comments_loaded(&mut self, result: Result<Vec<Comment>, FetchError>)
        requires
            result matches Ok(c) ==> height(comments_view(c@)) <= usize::MAX,
        ensures
            comments_loaded(*old(self), *final(self), result),
    {
        self.loading_comments = false;
        match result {
            Ok(comments) => {
                let n = comments.len();
                self.comments = comments;
                self.expanded = Vec::new();
                assert(path_set(self.expanded@) =~= Set::<Seq<char>>::empty());
                self.build_focus_items();
                let mut m = owned("Loaded ");
                push_decimal(&mut m, n as u64);
                push_str(&mut m, " comments");
                let ghost before = self.messages@;
                self.messages.push(m);
                assert(strs_of(self.messages@) =~= strs_of(before).push(m@));
            },
            Err(e) => {
                let mut m = owned("Failed to load comments: ");
                let t = e.message();
                push_str(&mut m, t.as_str());
                let ghost before = self.messages@;
                self.messages.push(m);
                assert(strs_of(self.messages@) =~= strs_of(before).push(m@));
                assert(m@ == "Failed to load comments: "@ + t@);
            },
        }
    }

    /// Reports whether logging a submitted command worked: `:<command>
    /// (loading)`, or the failure.
    pub fn note_command_logged(&mut self, command: &str, result: Result<(), String>)
        ensures
            strs_of(final(self).messages@) == strs_of(old(self).messages@).push(
                match result {
                    Ok(_) => ":"@ + command@ + " (loading)"@,
                    Err(e) => "Failed to log command: "@ + e@,
                },
            ),
            *final(self) == (App { messages: final(self).messages, ..*old(self) }),
    {
        let m = match result {
            Ok(_) => {
                let mut m = owned(":");
                push_str(&mut m, command);
                push_str(&mut m, " (loading)");
                m
            },
            Err(e) => {
                let mut m = owned("Failed to log command: ");
                push_str(&mut m, e.as_str());
                m
            },
        };
        let ghost before = self.messages@;
        self.messages.push(m);
        assert(strs_of(self.messages@) =~= strs_of(before).push(m@));
    }

    /// Counts down the notice: it goes away when its count reaches zero.
    pub fn tick(&mut self)
        ensures
            ticked(*old(self), *final(self)),
    {
        if self.flash_ttl > 0 {
            self.flash_ttl = self.flash_ttl - 1;
            if self.flash_ttl == 0 {
                self.flash_message = None;
            }
        }
    }

    /// Starts loading the front page: returns its address.
    pub fn start(&mut self) -> (url: String)
        ensures
            url@ == home_url(),
            *final(self) == (App { loading_posts: true, ..*old(self) }),
    {
        self.loading_posts = true;
        owned("https://www.reddit.com/.json")
    }

    /// Whether moving down from this state stays within `usize` arithmetic.
    pub open spec fn down_defined(self) -> bool {
        if self.view == pane::View::List {
            self.list_selected < usize::MAX && (self.list_selected + 1 < self.posts@.len()
                || self.focus_selected < usize::MAX)
        } else {
            self.focus_selected < usize::MAX
        }
    }

    /// Handles one key press and returns what the program has to do next.
    ///
    /// With the command line open, characters are typed, Backspace deletes,
    /// Esc closes it and Enter submits it (a command that names a listing
    /// starts loading it).  Otherwise Ctrl-C quits, `:` opens the command line,
    /// Up and Down move the selection, Enter opens the selected post or
    /// toggles the selected comment, `l` loads the focused post's comments and
    /// Esc goes back to the list.
    pub fn handle_key(&mut self, key: Key) -> (action: Action)
        requires
            !old(self).command_mode && key == Key::Down ==> old(self).down_defined(),
            !old(self).command_mode && key == Key::Enter && old(self).view == pane::View::Focus
                ==> old(self).comments_fit(),
        ensures
            key_step(*old(self), *final(self), key, action),
    {
        if self.command_mode {
            match key {
                Key::Char { ch, ctrl: _ } => {
                    self.input.push(ch);
                    Action::Nothing
                },
                Key::Backspace => {
                    self.input.pop();
                    Action::Nothing
                },
                Key::Esc => {
                    self.command_mode = false;
                    self.input.clear();
                    Action::Nothing
                },
                Key::Enter => {
                    let v = chars_of(self.input.as_str());
                    let cmd = trim_chars(&v);
                    let ghost mid_before = *self;
                    let (quit, target) = self.submit_command();
                    let ghost mid = *self;
                    assert(submitted(mid_before, mid, (quit, target)));
                    if quit {
                        return Action::Quit;
                    }
                    match target {
                        Some(url) => {
                            self.loading_posts = true;
                            self.posts.clear();
                            Action::LoadPosts { url, command: string_of(&cmd) }
                        },
                        None => Action::Nothing,
                    }
                },
                _ => Action::Nothing,
            }
        } else {
            match key {
                Key::Char { ch: 'c', ctrl: true } => Action::Quit,
                Key::Char { ch: ':', ctrl: _ } => {
                    self.command_mode = true;
                    self.input.clear();
                    Action::Nothing
                },
                Key::Up => {
                    if self.view == pane::View::List && self.list_selected > 0 {
                        self.list_selected -= 1;
                    } else if self.focus_selected > 0 {
                        self.focus_selected -= 1;
                    }
                    Action::Nothing
                },
                Key::Down => {
                    if self.view == pane::View::List && self.list_selected + 1 < self.posts.len() {
                        self.list_selected += 1;
                    } else if self.focus_selected + 1 < self.focus_items.len() {
                        self.focus_selected += 1;
                    }
                    Action::Nothing
                },
                Key::Enter => {
                    if self.view == pane::View::List {
                        self.open_focused();
                    } else {
                        self.toggle_selected();
                    }
                    Action::Nothing
                },
                Key::Char { ch: 'l', ctrl: _ } | Key::Char { ch: 'L', ctrl: _ } => {
                    if self.view == pane::View::Focus {
                        match &self.focused {
                            Some(p) => {
                                let mut url = owned("https://www.reddit.com");
                                push_str(&mut url, p.perma_link.as_str());
                                push_str(&mut url, ".json");
                                self.loading_comments = true;
                                self.comments.clear();
                                self.focus_items.clear();
                                Action::LoadComments { url }
                            },
                            None => Action::Nothing,
                        }
                    } else {
                        Action::Nothing
                    }
                },
                Key::Esc => {
                    if self.view == pane::View::Focus {
                        self.view = pane::View::List;
                    }
                    Action::Nothing
                },
                _ => Action::Nothing,
            }
        }
    }
}

/// The state after one frame's countdown of the notice.
pub open spec fn ticked(old: App, new: App) -> bool {
    if old.flash_ttl == 0 {
        new == old
    } else {
        &&& new.flash_ttl == old.flash_ttl - 1
        &&& new.flash_message == if old.flash_ttl == 1 {
            None
        } else {
            old.flash_message
        }
        &&& new == (App { flash_ttl: new.flash_ttl, flash_message: new.flash_message, ..old })
    }
}

/// The state after opening the selected post.
pub open spec fn opened(old: App, new: App) -> bool {
    if old.posts@.len() == 0 {
        new == old
    } else {
        let idx = if old.list_selected < old.posts@.len() - 1 {
            old.list_selected as int
        } else {
            old.posts@.len() - 1
        };
        &&& new.focused matches Some(p) && p@ == old.posts@[idx]@
        &&& new.focus_selected == 0
        &&& new.comments@.len() == 0
        &&& new.focus_items@.len() == 0
        &&& new.expanded@.len() == 0
        &&& new.view == pane::View::Focus
        &&& new == (App {
            focused: new.focused,
            focus_selected: 0,
            comments: new.comments,
            focus_items: new.focus_items,
            expanded: new.expanded,
            view: pane::View::Focus,
            ..old
        })
    }
}

/// The expanded paths after the comment at `p` is toggled in `e`.
pub open spec fn flip(e: Set<Seq<char>>, p: Seq<char>) -> Set<Seq<char>> {
    if e.contains(p) {
        e.remove(p)
    } else {
        e.insert(p)
    }
}

/// The expanded paths after a toggle at `p`: the flip, undone when it
/// leaves no row below `p`.
pub open spec fn toggle_result(cs: Seq<CommentView>, e: Set<Seq<char>>, p: Seq<char>) -> Set<Seq<char>> {
    let e1 = flip(e, p);
    if has_row_below(rows(cs, e1), p) {
        e1
    } else {
        e1.remove(p)
    }
}

/// The state after the selected row is toggled.
pub open spec fn toggled(old: App, new: App) -> bool {
    let items = items_view(old.focus_items@);
    let idx = old.focus_selected as int;
    if items.len() == 0 || idx >= items.len() {
        new == old
    } else if !items[idx].has_children {
        &&& strs_of(new.messages@) == strs_of(old.messages@).push(
            "Comment selected: "@ + items[idx].body,
        )
        &&& new == (App { messages: new.messages, ..old })
    } else {
        let p = items[idx].path;
        let cs = comments_view(old.comments@);
        let e2 = toggle_result(cs, path_set(old.expanded@), p);
        let r = rows(cs, e2);
        let k = first_row_with_path(r, p);
        &&& path_set(new.expanded@) == e2
        &&& strs_of(old.expanded@).no_duplicates() ==> strs_of(new.expanded@).no_duplicates()
        &&& items_view(new.focus_items@) == r
        &&& new.focus_selected as int == if k >= 0 {
            k
        } else {
            0
        }
        &&& new == (App {
            expanded: new.expanded,
            focus_items: new.focus_items,
            focus_selected: new.focus_selected,
            ..old
        })
    }
}

/// The state after the command line is submitted, with the answer
/// `(quit, listing address)`.
pub open spec fn submitted(old: App, new: App, r: (bool, Option<String>)) -> bool {
    let cmd = trim(old.input@);
    if cmd == "q"@ {
        r.0 && r.1 is None && new == old
    } else if cmd.len() == 0 {
        &&& !r.0 && r.1 is None
        &&& new.input@.len() == 0
        &&& new == (App { input: new.input, command_mode: false, ..old })
    } else {
        &&& !r.0
        &&& opt_text(r.1) == command_target(cmd)
        &&& new.input@.len() == 0
        &&& if command_target(cmd) is Some {
            new == (App { input: new.input, command_mode: false, ..old })
        } else {
            &&& new.flash_message matches Some(m) && m@ == command_notice(cmd)
            &&& new == (App {
                input: new.input,
                command_mode: false,
                flash_message: new.flash_message,
                flash_ttl: 30,
                ..old
            })
        }
    }
}

/// The state after a post listing has loaded (or failed to).
pub open spec fn posts_loaded(old: App, new: App, result: Result<Vec<Post>, FetchError>) -> bool {
    match result {
        Ok(ps) => {
            &&& strs_of(new.messages@) == strs_of(old.messages@).push(
                "Loaded "@ + dec(ps@.len()) + " posts"@,
            )
            &&& new == (App {
                loading_posts: false,
                posts: ps,
                list_selected: 0,
                messages: new.messages,
                ..old
            })
        },
        Err(e) => {
            &&& exists|t: Seq<char>|
                describes(e, t) && strs_of(new.messages@) == strs_of(old.messages@).push(
                    "Failed to load posts: "@ + t,
                )
            &&& new == (App { loading_posts: false, messages: new.messages, ..old })
        },
    }
}

/// The state after a comment thread has loaded (or failed to).
pub open spec fn comments_loaded(old: App, new: App, result: Result<Vec<Comment>, FetchError>) -> bool {
    match result {
        Ok(cs) => {
            &&& strs_of(new.messages@) == strs_of(old.messages@).push(
                "Loaded "@ + dec(cs@.len()) + " comments"@,
            )
            &&& new.comments == cs
            &&& new.expanded@.len() == 0
            &&& items_view(new.focus_items@) == rows(comments_view(cs@), Set::empty())
            &&& new.focus_selected == if old.focus_selected >= new.focus_items@.len() {
                0
            } else {
                old.focus_selected
            }
            &&& new == (App {
                loading_comments: false,
                comments: new.comments,
                expanded: new.expanded,
                focus_items: new.focus_items,
                focus_selected: new.focus_selected,
                messages: new.messages,
                ..old
            })
        },
        Err(e) => {
            &&& exists|t: Seq<char>|
                describes(e, t) && strs_of(new.messages@) == strs_of(old.messages@).push(
                    "Failed to load comments: "@ + t,
                )
            &&& new == (App { loading_comments: false, messages: new.messages, ..old })
        },
    }
}

/// The state and action after a key press.
pub open spec fn key_step(old: App, new: App, key: Key, action: Action) -> bool {
    if old.command_mode {
        match key {
            Key::Char { ch, ctrl: _ } => {
                &&& action is Nothing
                &&& new.input@ == old.input@.push(ch)
                &&& new == (App { input: new.input, ..old })
            },
            Key::Backspace => {
                &&& action is Nothing
                &&& new.input@ == if old.input@.len() > 0 {
                    old.input@.drop_last()
                } else {
                    old.input@
                }
                &&& new == (App { input: new.input, ..old })
            },
            Key::Esc => {
                &&& action is Nothing
                &&& new.input@.len() == 0
                &&& new == (App { input: new.input, command_mode: false, ..old })
            },
            Key::Enter => exists|mid: App, r: (bool, Option<String>)|
                {
                    &&& submitted(old, mid, r)
                    &&& r.0 ==> action is Quit && new == mid
                    &&& !r.0 && r.1 is None ==> action is Nothing && new == mid
                    &&& r.1 matches Some(u) ==> {
                        &&& action matches Action::LoadPosts { url, command } && url@ == u@
                            && command@ == trim(old.input@)
                        &&& new.posts@.len() == 0
                        &&& new == (App { loading_posts: true, posts: new.posts, ..mid })
                    }
                },
            _ => action is Nothing && new == old,
        }
    } else {
        match key {
            Key::Char { ch: 'c', ctrl: true } => action is Quit && new == old,
            Key::Char { ch: ':', ctrl: _ } => {
                &&& action is Nothing
                &&& new.input@.len() == 0
                &&& new == (App { input: new.input, command_mode: true, ..old })
            },
            Key::Up => {
                &&& action is Nothing
                &&& if old.view == pane::View::List && old.list_selected > 0 {
                    new == (App { list_selected: (old.list_selected - 1) as usize, ..old })
                } else if old.focus_selected > 0 {
                    new == (App { focus_selected: (old.focus_selected - 1) as usize, ..old })
                } else {
                    new == old
                }
            },
            Key::Down => {
                &&& action is Nothing
                &&& if old.view == pane::View::List && old.list_selected + 1 < old.posts@.len() {
                    new == (App { list_selected: (old.list_selected + 1) as usize, ..old })
                } else if old.focus_selected + 1 < old.focus_items@.len() {
                    new == (App { focus_selected: (old.focus_selected + 1) as usize, ..old })
                } else {
                    new == old
                }
            },
            Key::Enter => {
                &&& action is Nothing
                &&& old.view == pane::View::List ==> opened(old, new)
                &&& old.view == pane::View::Focus ==> toggled(old, new)
            },
            Key::Char { ch: 'l', ctrl: _ } | Key::Char { ch: 'L', ctrl: _ } => {
                if old.view == pane::View::Focus && old.focused is Some {
                    &&& action matches Action::LoadComments { url } && url@ == thread_url(
                        old.focused->0.perma_link@,
                    )
                    &&& new.comments@.len() == 0
                    &&& new.focus_items@.len() == 0
                    &&& new == (App {
                        loading_comments: true,
                        comments: new.comments,
                        focus_items: new.focus_items,
                        ..old
                    })
                } else {
                    action is Nothing && new == old
                }
            },
            Key::Esc => {
                &&& action is Nothing
                &&& if old.view == pane::View::Focus {
                    new == (App { view: pane::View::List, ..old })
                } else {
                    new == old
                }
            },
            _ => action is Nothing && new == old,
        }
    }
}

} // verus!
