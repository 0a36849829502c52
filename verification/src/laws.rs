//! Properties of the comment view that span several operations.
use vstd::prelude::*;

use crate::app::{
    command_target, comments_loaded, first_row_with_path, flip, has_row_below, item_of, items_view, key_step,
    lemma_first_row, opened, path_set, path_text, posts_loaded, rows, submitted, toggle_result,
    ticked, toggled, walk, Action, App, FocusItem, FocusItemView, Key,
};
use crate::fetch::FetchError;
use crate::model::{comments_view, Comment, CommentView, Post};
use crate::pane;
use crate::text::{dec, starts_with, strs_of};
use crate::tree::{
    encode, lemma_encode_injective, lemma_encode_len, lemma_encode_prefix, lemma_encode_push,
    lemma_encode_take, lemma_node_at_child, lemma_walk_complete, lemma_walk_distinct, node_at,
    row_address, row_for, shown,
};

verus! {

/// Whether the selected row of a state shows a comment with replies.
pub open spec fn selects_parent(app: App) -> bool {
    &&& app.focus_selected < app.focus_items@.len()
    &&& app.focus_items@[app.focus_selected as int].has_children
}

proof fn lemma_top(b: Seq<nat>)
    ensures
        Seq::<nat>::empty() + b == b,
        encode(Seq::<nat>::empty()) == Seq::<char>::empty(),
{
    assert(Seq::<nat>::empty() + b =~= b);
}

/// A comment that is shown stays shown when the expansion of its own path
/// changes.
proof fn lemma_shown_other(cs: Seq<CommentView>, b: Seq<nat>, e: Set<Seq<char>>, e2: Set<Seq<char>>)
    requires
        shown(cs, b, e, Seq::empty()),
        forall|q: Seq<char>| q != encode(b) ==> (e.contains(q) <==> e2.contains(q)),
    ensures
        shown(cs, b, e2, Seq::empty()),
{
    assert forall|k: int| 1 <= k < b.len() implies e2.contains(
        #[trigger] encode(Seq::<nat>::empty() + b.take(k)),
    ) by {
        lemma_top(b.take(k));
        lemma_encode_take(b, k);
        assert(e.contains(encode(Seq::<nat>::empty() + b.take(k))));
    }
}

/// The comment that the selected row of a consistent state shows.
proof fn selected_address(app: App) -> (b: Seq<nat>)
    requires
        app.consistent(),
        selects_parent(app),
    ensures
        shown(comments_view(app.comments@), b, path_set(app.expanded@), Seq::empty()),
        b.len() >= 1,
        encode(b) == app.focus_items@[app.focus_selected as int].path@,
        node_at(comments_view(app.comments@), b)->0.replies.len() > 0,
{
    let cs = comments_view(app.comments@);
    let e = path_set(app.expanded@);
    let j = app.focus_selected as int;
    lemma_top(Seq::empty());
    assert(items_view(app.focus_items@)[j] == app.focus_items@[j]@);
    let b = row_address(cs, Seq::empty(), 0, e, j);
    lemma_top(b);
    b
}

/// Toggling the selected comment of a consistent state, when it has
/// replies, flips its path in the expanded set: a collapsed comment is
/// expanded and an expanded one collapsed.  The rows stay consistent and the
/// same comment stays selected.
pub proof fn law_toggle_flips(old: App, new: App)
    requires
        toggled(old, new),
        old.consistent(),
        selects_parent(old),
    ensures
        path_set(new.expanded@) == flip(
            path_set(old.expanded@),
            old.focus_items@[old.focus_selected as int].path@,
        ),
        new.consistent(),
        selects_parent(new),
        new.focus_items@[new.focus_selected as int].path@
            == old.focus_items@[old.focus_selected as int].path@,
        new.comments == old.comments,
{
    let cs = comments_view(old.comments@);
    let e = path_set(old.expanded@);
    let j = old.focus_selected as int;
    assert(items_view(old.focus_items@)[j] == old.focus_items@[j]@);
    let b = selected_address(old);
    let p = encode(b);
    let node = node_at(cs, b)->0;
    lemma_encode_len(b);
    lemma_top(Seq::empty());
    let e1 = flip(e, p);
    if !e.contains(p) {
        // Expanding: the first reply becomes visible.
        let a = b.push(0);
        lemma_node_at_child(cs, b, 0);
        assert forall|k: int| 1 <= k < a.len() implies e1.contains(
            #[trigger] encode(Seq::<nat>::empty() + a.take(k)),
        ) by {
            lemma_top(a.take(k));
            if k < b.len() {
                assert(a.take(k) =~= b.take(k));
                lemma_top(b.take(k));
                assert(e.contains(encode(Seq::<nat>::empty() + b.take(k))));
            } else {
                assert(a.take(k) =~= b);
            }
        }
        assert(shown(cs, a, e1, Seq::empty()));
        lemma_walk_complete(cs, Seq::empty(), 0, e1, a);
        let r1 = rows(cs, e1);
        let jj = choose|jj: int| 0 <= jj < r1.len() && #[trigger] r1[jj] == row_for(cs, a, Seq::empty(), 0);
        lemma_top(a);
        lemma_encode_push(b, 0);
        assert(r1[jj].path == p + seq!['.'] + crate::text::dec(0));
        assert(starts_with(r1[jj].path, p + seq!['.'])) by {
            assert(r1[jj].path.take((p + seq!['.']).len() as int) =~= p + seq!['.']);
        }
        assert(has_row_below(r1, p));
        assert(toggle_result(cs, e, p) == e1);
    } else {
        // Collapsing: no reply stays visible.
        let r1 = rows(cs, e1);
        if has_row_below(r1, p) {
            let jj = choose|jj: int| 0 <= jj < r1.len() && starts_with(#[trigger] r1[jj].path, p + seq!['.']);
            let a = row_address(cs, Seq::empty(), 0, e1, jj);
            lemma_top(a);
            lemma_encode_prefix(a, b);
            lemma_top(a.take(b.len() as int));
            assert(e1.contains(encode(Seq::<nat>::empty() + a.take(b.len() as int))));
            assert(false);
        }
        assert(e1.remove(p) =~= e1);
        assert(toggle_result(cs, e, p) == e1);
    }
    assert(path_set(new.expanded@) == e1);
    // The toggled comment keeps its row.
    let r = rows(cs, e1);
    assert forall|q: Seq<char>| q != p implies (e.contains(q) <==> e1.contains(q)) by {}
    lemma_shown_other(cs, b, e, e1);
    lemma_walk_complete(cs, Seq::empty(), 0, e1, b);
    let j0 = choose|j0: int| 0 <= j0 < r.len() && #[trigger] r[j0] == row_for(cs, b, Seq::empty(), 0);
    lemma_top(b);
    assert(r[j0].path == p);
    lemma_first_row(r, p);
    let k = first_row_with_path(r, p);
    assert(k >= 0);
    let items = items_view(old.focus_items@);
    assert(items[j].path == p);
    assert(items[j].has_children);
    assert(toggle_result(cs, e, items[j].path) == e1);
    assert(first_row_with_path(rows(cs, toggle_result(cs, e, items[j].path)), items[j].path) == k);
    assert(new.focus_selected == k);
    assert(items_view(new.focus_items@)[k] == new.focus_items@[k]@);
    let a = row_address(cs, Seq::empty(), 0, e1, k);
    lemma_top(a);
    lemma_encode_injective(a, b);
}

/// Toggling the selected comment twice (when it has replies, in a
/// consistent state) restores the expanded set, the rows and the selection.
pub proof fn law_toggle_twice(s0: App, s1: App, s2: App)
    requires
        toggled(s0, s1),
        toggled(s1, s2),
        s0.consistent(),
        selects_parent(s0),
    ensures
        path_set(s2.expanded@) == path_set(s0.expanded@),
        items_view(s2.focus_items@) == items_view(s0.focus_items@),
        s2.focus_selected == s0.focus_selected,
{
    law_toggle_flips(s0, s1);
    law_toggle_flips(s1, s2);
    let p = s0.focus_items@[s0.focus_selected as int].path@;
    let e = path_set(s0.expanded@);
    assert(flip(flip(e, p), p) =~= e);
    let cs = comments_view(s0.comments@);
    let r = rows(cs, e);
    assert(items_view(s2.focus_items@) == r);
    // The selected row is the only row with its path.
    lemma_top(Seq::empty());
    lemma_walk_distinct(cs, Seq::empty(), 0, e);
    lemma_first_row(r, p);
    let j = s0.focus_selected as int;
    assert(r[j] == s0.focus_items@[j]@);
    let k = first_row_with_path(r, p);
    assert(k >= 0);
    assert(r[k].path == p);
    assert(k == j);
}


// ---------------------------------------------------------------------------
// The state's invariant
// ---------------------------------------------------------------------------

proof fn lemma_no_rows()
    ensures
        items_view(Seq::<FocusItem>::empty()) == Seq::<FocusItemView>::empty(),
        forall|e: Set<Seq<char>>| #[trigger] rows(Seq::<CommentView>::empty(), e) == Seq::<FocusItemView>::empty(),
{
    assert(items_view(Seq::<FocusItem>::empty()) =~= Seq::<FocusItemView>::empty());
}

/// Opening the selected post keeps the state's invariant.
pub proof fn law_open_keeps_invariant(old: App, new: App)
    requires
        opened(old, new),
        old.well_formed(),
    ensures
        new.well_formed(),
{
    lemma_no_rows();
    if old.posts@.len() > 0 {
        assert(comments_view(new.comments@) =~= Seq::<CommentView>::empty());
        assert(items_view(new.focus_items@) =~= Seq::<FocusItemView>::empty());
    }
}

/// Toggling the selected row keeps the state's invariant, whatever the
/// rows held before.
pub proof fn law_toggle_keeps_invariant(old: App, new: App)
    requires
        toggled(old, new),
        old.well_formed(),
    ensures
        new.well_formed(),
{
    let items = items_view(old.focus_items@);
    let idx = old.focus_selected as int;
    if items.len() > 0 && idx < items.len() && items[idx].has_children {
        let p = items[idx].path;
        let cs = comments_view(old.comments@);
        let r = rows(cs, toggle_result(cs, path_set(old.expanded@), p));
        lemma_first_row(r, p);
        assert(new.focus_items@.len() == r.len());
    }
}

/// Submitting the command line keeps the state's invariant.
pub proof fn law_submit_keeps_invariant(old: App, new: App, r: (bool, Option<String>))
    requires
        submitted(old, new, r),
        old.well_formed(),
    ensures
        new.well_formed(),
{
}

/// Taking in a loaded post listing (or its failure) keeps the state's
/// invariant.
pub proof fn law_posts_loaded_keeps_invariant(old: App, new: App, result: Result<Vec<Post>, FetchError>)
    requires
        posts_loaded(old, new, result),
        old.well_formed(),
    ensures
        new.well_formed(),
{
}

/// Taking in a loaded comment thread (or its failure) keeps the state's
/// invariant.
pub proof fn law_comments_loaded_keeps_invariant(
    old: App,
    new: App,
    result: Result<Vec<Comment>, FetchError>,
)
    requires
        comments_loaded(old, new, result),
        old.well_formed(),
    ensures
        new.well_formed(),
{
    if result is Ok {
        assert(strs_of(new.expanded@) =~= Seq::<Seq<char>>::empty());
        assert(path_set(new.expanded@) =~= Set::<Seq<char>>::empty());
    }
}

/// Every key press keeps the state's invariant.
pub proof fn law_key_keeps_invariant(old: App, new: App, key: Key, action: Action)
    requires
        key_step(old, new, key, action),
        old.well_formed(),
    ensures
        new.well_formed(),
{
    lemma_no_rows();
    if old.command_mode {
        if key is Enter {
            let (mid, r) = choose|mid: App, r: (bool, Option<String>)|
                {
                    &&& submitted(old, mid, r)
                    &&& r.0 ==> action is Quit && new == mid
                    &&& !r.0 && r.1 is None ==> action is Nothing && new == mid
                    &&& r.1 matches Some(u) ==> {
                        &&& action matches Action::LoadPosts { url, command } && url@ == u@
                            && command@ == crate::text::trim(old.input@)
                        &&& new.posts@.len() == 0
                        &&& new == (App { loading_posts: true, posts: new.posts, ..mid })
                    }
                };
            law_submit_keeps_invariant(old, mid, r);
        }
    } else {
        match key {
            Key::Enter => {
                if old.view == pane::View::List {
                    law_open_keeps_invariant(old, new);
                } else {
                    law_toggle_keeps_invariant(old, new);
                }
            },
            Key::Char { ch, ctrl } => {
                if (ch == 'l' || ch == 'L') && old.view == pane::View::Focus && old.focused is Some {
                    assert(comments_view(new.comments@) =~= Seq::<CommentView>::empty());
                    assert(items_view(new.focus_items@) =~= Seq::<FocusItemView>::empty());
                }
            },
            _ => {},
        }
    }
}

/// A freshly loaded comment thread is shown collapsed: one row per
/// top-level comment, in order, at depth 0, with its index as its path.
pub proof fn law_collapsed_rows(cs: Seq<CommentView>)
    ensures
        rows(cs, Set::empty()) == Seq::new(cs.len(), |i: int| item_of(cs[i], dec(i as nat), 0)),
    decreases cs.len(),
{
    let e = Set::<Seq<char>>::empty();
    if cs.len() > 0 {
        law_collapsed_rows(cs.drop_last());
        let i = (cs.len() - 1) as nat;
        assert(path_text(Seq::empty(), i) == dec(i));
        assert(walk(cs, Seq::empty(), 0, e) == walk(cs.drop_last(), Seq::empty(), 0, e) + seq![
            item_of(cs.last(), dec(i), 0),
        ] + Seq::<FocusItemView>::empty());
        assert(rows(cs, e) =~= Seq::new(cs.len(), |i: int| item_of(cs[i], dec(i as nat), 0)));
    } else {
        assert(rows(cs, e) =~= Seq::new(cs.len(), |i: int| item_of(cs[i], dec(i as nat), 0)));
    }
}

// ---------------------------------------------------------------------------
// Keys that undo each other
// ---------------------------------------------------------------------------

/// Moving down and then up, where moving down is possible, restores the
/// state.
pub proof fn law_down_up_undo(s0: App, s1: App, s2: App, a1: Action, a2: Action)
    requires
        !s0.command_mode,
        s0.posts@.len() <= usize::MAX,
        s0.focus_items@.len() <= usize::MAX,
        s0.view == pane::View::List && s0.list_selected + 1 < s0.posts@.len()
            || s0.view == pane::View::Focus && s0.focus_selected + 1 < s0.focus_items@.len(),
        key_step(s0, s1, Key::Down, a1),
        key_step(s1, s2, Key::Up, a2),
    ensures
        s2 == s0,
{
    if s0.view == pane::View::List {
        assert(s1 == (App { list_selected: (s0.list_selected + 1) as usize, ..s0 }));
        assert(s2 == (App { list_selected: (s1.list_selected - 1) as usize, ..s1 }));
    } else {
        assert(s1 == (App { focus_selected: (s0.focus_selected + 1) as usize, ..s0 }));
        assert(s2 == (App { focus_selected: (s1.focus_selected - 1) as usize, ..s1 }));
    }
}

/// Moving up and then down, where moving up is possible, restores the
/// state.
pub proof fn law_up_down_undo(s0: App, s1: App, s2: App, a1: Action, a2: Action)
    requires
        !s0.command_mode,
        s0.view == pane::View::List && 0 < s0.list_selected < s0.posts@.len()
            || s0.view == pane::View::Focus && 0 < s0.focus_selected < s0.focus_items@.len(),
        key_step(s0, s1, Key::Up, a1),
        key_step(s1, s2, Key::Down, a2),
    ensures
        s2 == s0,
{
}

/// Typing a character and erasing it leaves the command line as it was.
pub proof fn law_type_then_erase(s0: App, s1: App, s2: App, ch: char, ctrl: bool, a1: Action, a2: Action)
    requires
        s0.command_mode,
        key_step(s0, s1, Key::Char { ch, ctrl }, a1),
        key_step(s1, s2, Key::Backspace, a2),
    ensures
        s2.input@ == s0.input@,
        s2 == (App { input: s2.input, ..s0 }),
{
    assert(s0.input@.push(ch).drop_last() =~= s0.input@);
}

/// Opening the command line and leaving it with Esc changes nothing but
/// emptying the input.
pub proof fn law_command_line_cancel(s0: App, s1: App, s2: App, a1: Action, a2: Action)
    requires
        !s0.command_mode,
        key_step(s0, s1, Key::Char { ch: ':', ctrl: false }, a1),
        key_step(s1, s2, Key::Esc, a2),
    ensures
        s2.input@.len() == 0,
        s2 == (App { input: s2.input, ..s0 }),
{
}

/// Opening a post from the list and going back with Esc shows the list
/// again, with the same posts and the same selection.
pub proof fn law_open_then_back(s0: App, s1: App, s2: App, a1: Action, a2: Action)
    requires
        !s0.command_mode,
        s0.view == pane::View::List,
        key_step(s0, s1, Key::Enter, a1),
        key_step(s1, s2, Key::Esc, a2),
    ensures
        s2.view == pane::View::List,
        s2.posts == s0.posts,
        s2.list_selected == s0.list_selected,
{
}


// ---------------------------------------------------------------------------
// The notice
// ---------------------------------------------------------------------------

/// A notice set to last `n` frames is shown for exactly `n` frames while
/// nothing sets a new one.  Each frame, whatever happens before the tick
/// (`before_tick[i]`: key presses, loads, logging) leaves the notice alone
/// (see `law_keys_keep_notice` for the keys that do), and then the notice
/// counts down by one tick.  After fewer than `n` frames it is still there;
/// after `n` it is gone.
pub proof fn law_notice_expires(s: Seq<App>, before_tick: Seq<App>)
    requires
        s.len() >= 2,
        before_tick.len() == s.len() - 1,
        s[0].flash_ttl == s.len() - 1,
        forall|i: int|
            #![trigger before_tick[i]]
            0 <= i < s.len() - 1 ==> before_tick[i].flash_message == s[i].flash_message
                && before_tick[i].flash_ttl == s[i].flash_ttl && ticked(before_tick[i], s[i + 1]),
    ensures
        forall|i: int| 0 <= i < s.len() - 1 ==> #[trigger] s[i].flash_message == s[0].flash_message,
        s.last().flash_message is None,
        s.last().flash_ttl == 0,
{
    let n = s.len() - 1;
    assert forall|i: int| 0 <= i <= n implies #[trigger] s[i].flash_ttl == n - i
        && (i < n ==> s[i].flash_message == s[0].flash_message) by {
        lemma_countdown(s, before_tick, i);
    }
    assert forall|i: int| 0 <= i < s.len() - 1 implies #[trigger] s[i].flash_message
        == s[0].flash_message by {
        lemma_countdown(s, before_tick, i);
    }
    assert(ticked(before_tick[n - 1], s[n]));
    assert(s[n - 1].flash_ttl == 1);
}

proof fn lemma_countdown(s: Seq<App>, before_tick: Seq<App>, i: int)
    requires
        s.len() >= 2,
        before_tick.len() == s.len() - 1,
        s[0].flash_ttl == s.len() - 1,
        forall|k: int|
            #![trigger before_tick[k]]
            0 <= k < s.len() - 1 ==> before_tick[k].flash_message == s[k].flash_message
                && before_tick[k].flash_ttl == s[k].flash_ttl && ticked(before_tick[k], s[k + 1]),
        0 <= i < s.len(),
    ensures
        s[i].flash_ttl == s.len() - 1 - i,
        i < s.len() - 1 ==> s[i].flash_message == s[0].flash_message,
    decreases i,
{
    if i > 0 {
        lemma_countdown(s, before_tick, i - 1);
        assert(ticked(before_tick[i - 1], s[i]));
    }
}

/// Every key press leaves the notice alone, except Enter on a command line
/// whose command is not `q`, not empty and names no listing (that one shows
/// a usage or unknown-command notice).
pub proof fn law_keys_keep_notice(old: App, new: App, key: Key, action: Action)
    requires
        key_step(old, new, key, action),
        old.command_mode && key is Enter ==> ({
            let cmd = crate::text::trim(old.input@);
            cmd == "q"@ || cmd.len() == 0 || command_target(cmd) is Some
        }),
    ensures
        new.flash_message == old.flash_message,
        new.flash_ttl == old.flash_ttl,
{
    if old.command_mode && key is Enter {
        let (mid, r) = choose|mid: App, r: (bool, Option<String>)|
            {
                &&& submitted(old, mid, r)
                &&& r.0 ==> action is Quit && new == mid
                &&& !r.0 && r.1 is None ==> action is Nothing && new == mid
                &&& r.1 matches Some(u) ==> {
                    &&& action matches Action::LoadPosts { url, command } && url@ == u@
                        && command@ == crate::text::trim(old.input@)
                    &&& new.posts@.len() == 0
                    &&& new == (App { loading_posts: true, posts: new.posts, ..mid })
                }
            };
        let cmd = crate::text::trim(old.input@);
        if cmd != "q"@ && cmd.len() > 0 {
            assert(crate::model::opt_text(r.1) == command_target(cmd));
        }
    }
}

// ---------------------------------------------------------------------------
// Submitting commands
// ---------------------------------------------------------------------------

/// Enter on the command line asks to load a listing (and to log the
/// command) exactly when the trimmed command names one; the address is the
/// one the command names and the logged command is the trimmed input.
pub proof fn law_only_valid_commands_load(old: App, new: App, action: Action)
    requires
        old.command_mode,
        key_step(old, new, Key::Enter, action),
    ensures
        ({
            let cmd = crate::text::trim(old.input@);
            &&& action is LoadPosts <==> (cmd != "q"@ && cmd.len() > 0 && command_target(cmd) is Some)
            &&& action matches Action::LoadPosts { url, command } ==> url@ == command_target(cmd)->0
                && command@ == cmd
        }),
{
    let (mid, r) = choose|mid: App, r: (bool, Option<String>)|
        {
            &&& submitted(old, mid, r)
            &&& r.0 ==> action is Quit && new == mid
            &&& !r.0 && r.1 is None ==> action is Nothing && new == mid
            &&& r.1 matches Some(u) ==> {
                &&& action matches Action::LoadPosts { url, command } && url@ == u@
                    && command@ == crate::text::trim(old.input@)
                &&& new.posts@.len() == 0
                &&& new == (App { loading_posts: true, posts: new.posts, ..mid })
            }
        };
    let cmd = crate::text::trim(old.input@);
    if cmd != "q"@ && cmd.len() > 0 {
        assert(crate::model::opt_text(r.1) == command_target(cmd));
    }
}


// ---------------------------------------------------------------------------
// What commands ask for
// ---------------------------------------------------------------------------

/// Whether every character of `s` is whitespace (`s` may be empty).
pub open spec fn blank(s: Seq<char>) -> bool {
    forall|k: int| 0 <= k < s.len() ==> crate::text::is_ws(#[trigger] s[k])
}

/// Whether `s` is non-empty and neither begins nor ends with whitespace.
pub open spec fn solid_ends(s: Seq<char>) -> bool {
    &&& s.len() > 0
    &&& !crate::text::is_ws(s[0])
    &&& !crate::text::is_ws(s.last())
}

proof fn lemma_trim_start_blank(w: Seq<char>, x: Seq<char>)
    requires
        blank(w),
        x.len() > 0,
        !crate::text::is_ws(x[0]),
    ensures
        crate::text::trim_start(w + x) == x,
    decreases w.len(),
{
    if w.len() == 0 {
        assert(w + x =~= x);
    } else {
        assert((w + x).drop_first() =~= w.drop_first() + x);
        assert((w + x)[0] == w[0]);
        assert(blank(w.drop_first())) by {
            assert forall|k: int| 0 <= k < w.drop_first().len() implies crate::text::is_ws(
                #[trigger] w.drop_first()[k],
            ) by {
                assert(w.drop_first()[k] == w[k + 1]);
            }
        }
        lemma_trim_start_blank(w.drop_first(), x);
    }
}

proof fn lemma_trim_end_blank(x: Seq<char>, w: Seq<char>)
    requires
        blank(w),
        x.len() > 0,
        !crate::text::is_ws(x.last()),
    ensures
        crate::text::trim_end(x + w) == x,
    decreases w.len(),
{
    if w.len() == 0 {
        assert(x + w =~= x);
    } else {
        assert((x + w).drop_last() =~= x + w.drop_last());
        assert((x + w).last() == w.last());
        assert(blank(w.drop_last())) by {
            assert forall|k: int| 0 <= k < w.drop_last().len() implies crate::text::is_ws(
                #[trigger] w.drop_last()[k],
            ) by {
                assert(w.drop_last()[k] == w[k]);
            }
        }
        lemma_trim_end_blank(x, w.drop_last());
    }
}

/// Trimming removes exactly the blank ends around a text with solid ends.
proof fn lemma_trim_blank_ends(lead: Seq<char>, x: Seq<char>, post: Seq<char>)
    requires
        blank(lead),
        blank(post),
        solid_ends(x),
    ensures
        crate::text::trim(lead + x + post) == x,
{
    assert(lead + x + post =~= lead + (x + post));
    assert((x + post)[0] == x[0]);
    lemma_trim_start_blank(lead, x + post);
    lemma_trim_end_blank(x, post);
}

/// A command line made of a command word `w`, one whitespace character,
/// blank text and an argument `q` with solid ends, all between blank ends,
/// is read as the command `w` with the argument `q`.
proof fn lemma_command_shape(
    lead: Seq<char>,
    w: Seq<char>,
    sp: char,
    pre: Seq<char>,
    q: Seq<char>,
    post: Seq<char>,
)
    requires
        blank(lead),
        blank(pre),
        blank(post),
        crate::text::is_ws(sp),
        solid_ends(q),
        w.len() > 0,
        forall|k: int| 0 <= k < w.len() ==> !crate::text::is_ws(#[trigger] w[k]),
    ensures
        ({
            let cmd = w + seq![sp] + pre + q;
            &&& crate::text::trim(lead + w + seq![sp] + pre + q + post) == cmd
            &&& crate::app::command_action(cmd) == w
            &&& crate::app::command_rest(cmd) == q
            &&& cmd.len() > w.len() + 1
        }),
{
    let cmd = w + seq![sp] + pre + q;
    assert(cmd[0] == w[0]);
    assert(cmd.last() == q.last());
    lemma_trim_blank_ends(lead, cmd, post);
    assert(lead + w + seq![sp] + pre + q + post =~= lead + cmd + post);
    let tail = seq![sp] + pre + q;
    assert(cmd =~= w + tail);
    crate::text::lemma_ws_pos_append(w, tail);
    assert(tail[0] == sp);
    assert(crate::text::ws_pos(tail) == 0);
    assert(cmd.take(w.len() as int) =~= w);
    assert(cmd.skip(w.len() as int + 1) =~= pre + q);
    assert(blank(Seq::<char>::empty()));
    lemma_trim_blank_ends(pre, q, Seq::<char>::empty());
    assert(pre + q + Seq::<char>::empty() =~= pre + q);
}

/// `search <query>` searches for the whole query: whatever blank text
/// stands around the command line and between the word and the query, the
/// address is `https://www.reddit.com/search/.json?q=(<query>)`, with the
/// query's inner whitespace kept.
pub proof fn law_search_takes_whole_query(
    old: App,
    new: App,
    r: (bool, Option<String>),
    lead: Seq<char>,
    sp: char,
    pre: Seq<char>,
    query: Seq<char>,
    post: Seq<char>,
)
    requires
        submitted(old, new, r),
        old.input@ == lead + "search"@ + seq![sp] + pre + query + post,
        blank(lead),
        blank(pre),
        blank(post),
        crate::text::is_ws(sp),
        solid_ends(query),
    ensures
        !r.0,
        r.1 matches Some(u) && u@ == "https://www.reddit.com/search/.json?q=("@ + query + ")"@,
        !new.command_mode,
        new.input@.len() == 0,
        new.flash_message == old.flash_message,
{
    reveal_strlit("search");
    reveal_strlit("home");
    reveal_strlit("goto");
    reveal_strlit("/");
    reveal_strlit("q");
    let w = "search"@;
    assert(w.len() == 6);
    assert forall|k: int| 0 <= k < w.len() implies !crate::text::is_ws(#[trigger] w[k]) by {}
    lemma_command_shape(lead, w, sp, pre, query, post);
    let cmd = w + seq![sp] + pre + query;
    assert(w != "home"@ && w != "/"@ && w != "goto"@);
    assert(cmd != "q"@);
    assert(crate::model::opt_text(r.1) == command_target(cmd));
}

/// `goto <subreddit>` opens the subreddit's listing: for an argument that
/// begins with `r/` the address is `https://www.reddit.com/<argument>.json`,
/// otherwise `https://www.reddit.com/r/<argument>/.json`.
pub proof fn law_goto_opens_subreddit(
    old: App,
    new: App,
    r: (bool, Option<String>),
    lead: Seq<char>,
    sp: char,
    pre: Seq<char>,
    name: Seq<char>,
    post: Seq<char>,
)
    requires
        submitted(old, new, r),
        old.input@ == lead + "goto"@ + seq![sp] + pre + name + post,
        blank(lead),
        blank(pre),
        blank(post),
        crate::text::is_ws(sp),
        solid_ends(name),
    ensures
        !r.0,
        r.1 matches Some(u) && u@ == if name.len() >= 2 && name[0] == 'r' && name[1] == '/' {
            "https://www.reddit.com/"@ + name + ".json"@
        } else {
            "https://www.reddit.com/r/"@ + name + "/.json"@
        },
        !new.command_mode,
        new.input@.len() == 0,
{
    reveal_strlit("goto");
    reveal_strlit("home");
    reveal_strlit("/");
    reveal_strlit("q");
    reveal_strlit("r/");
    let w = "goto"@;
    assert(w.len() == 4);
    assert forall|k: int| 0 <= k < w.len() implies !crate::text::is_ws(#[trigger] w[k]) by {}
    lemma_command_shape(lead, w, sp, pre, name, post);
    let cmd = w + seq![sp] + pre + name;
    assert(w != "home"@ && w != "/"@);
    assert(cmd != "q"@);
    assert(starts_with(name, "r/"@) <==> (name.len() >= 2 && name[0] == 'r' && name[1] == '/')) by {
        if name.len() >= 2 && name[0] == 'r' && name[1] == '/' {
            assert(name.take(2) =~= "r/"@);
        }
        if starts_with(name, "r/"@) {
            assert(name[0] == name.take(2)[0] && name[1] == name.take(2)[1]);
        }
    }
    assert(crate::model::opt_text(r.1) == command_target(cmd));
}

/// `home` (between blank ends) opens the front page listing
/// `https://www.reddit.com/.json`.
pub proof fn law_home_opens_front_page(
    old: App,
    new: App,
    r: (bool, Option<String>),
    lead: Seq<char>,
    post: Seq<char>,
)
    requires
        submitted(old, new, r),
        old.input@ == lead + "home"@ + post,
        blank(lead),
        blank(post),
    ensures
        !r.0,
        r.1 matches Some(u) && u@ == "https://www.reddit.com/.json"@,
{
    reveal_strlit("home");
    reveal_strlit("q");
    let w = "home"@;
    assert(solid_ends(w));
    lemma_trim_blank_ends(lead, w, post);
    assert(blank(Seq::<char>::empty()));
    crate::text::lemma_ws_pos_append(w, Seq::<char>::empty());
    assert(w + Seq::<char>::empty() =~= w);
    assert(w.take(4) =~= w);
    assert(w != "q"@);
    assert(crate::model::opt_text(r.1) == command_target(w));
}

/// `q` (between blank ends) quits and changes nothing.
pub proof fn law_q_quits(old: App, new: App, r: (bool, Option<String>), lead: Seq<char>, post: Seq<char>)
    requires
        submitted(old, new, r),
        old.input@ == lead + "q"@ + post,
        blank(lead),
        blank(post),
    ensures
        r.0,
        r.1 is None,
        new == old,
{
    reveal_strlit("q");
    lemma_trim_blank_ends(lead, "q"@, post);
}


// ---------------------------------------------------------------------------
// Opening posts and threads
// ---------------------------------------------------------------------------

/// `l` (or `L`) on a focused post asks to load
/// `https://www.reddit.com<permalink>.json`, and empties the comments and
/// rows while they load.
pub proof fn law_load_comments_address(old: App, new: App, ch: char, ctrl: bool, action: Action)
    requires
        !old.command_mode,
        old.view == pane::View::Focus,
        old.focused is Some,
        ch == 'l' || ch == 'L',
        key_step(old, new, Key::Char { ch, ctrl }, action),
    ensures
        action matches Action::LoadComments { url } && url@ == "https://www.reddit.com"@
            + old.focused->0.perma_link@ + ".json"@,
        new.loading_comments,
        new.comments@.len() == 0,
        new.focus_items@.len() == 0,
{
}

/// Opening from the list shows the selected post (where the selection
/// points at a post) in the focus view, with no comments, rows or expanded
/// paths yet and the first row selected.
pub proof fn law_open_shows_selected(old: App, new: App)
    requires
        opened(old, new),
        old.list_selected < old.posts@.len(),
    ensures
        new.focused matches Some(p) && p@ == old.posts@[old.list_selected as int]@,
        new.view == pane::View::Focus,
        new.comments@.len() == 0 && new.focus_items@.len() == 0 && new.expanded@.len() == 0,
        new.focus_selected == 0,
        new.posts == old.posts,
        new.list_selected == old.list_selected,
{
}

/// Enter on a comment without replies adds `Comment selected: <body>` to the
/// messages and changes nothing else.
pub proof fn law_leaf_selection_reported(old: App, new: App)
    requires
        toggled(old, new),
        old.focus_selected < old.focus_items@.len(),
        !old.focus_items@[old.focus_selected as int].has_children,
    ensures
        strs_of(new.messages@) == strs_of(old.messages@).push(
            "Comment selected: "@ + old.focus_items@[old.focus_selected as int].body@,
        ),
        new == (App { messages: new.messages, ..old }),
{
    assert(items_view(old.focus_items@)[old.focus_selected as int] == old.focus_items@[old.focus_selected as int]@);
}

/// A row shows a comment body of at most 400 characters whole; a longer one
/// is cut after its first 400 characters and marked with `...`.
pub proof fn law_long_bodies_cut(body: Seq<char>)
    ensures
        body.len() <= 400 ==> crate::app::snip(body) == body,
        body.len() > 400 ==> crate::app::snip(body).len() == 403 && crate::app::snip(body).take(400)
            == body.take(400) && crate::app::snip(body).skip(400) == "..."@,
{
    reveal_strlit("...");
    if body.len() > 400 {
        let s = crate::app::snip(body);
        assert(s.take(400) =~= body.take(400));
        assert(s.skip(400) =~= "..."@);
    }
}

} // verus!
