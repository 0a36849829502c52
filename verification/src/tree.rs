//! Addresses of comments in a comment tree and the dotted paths that name
//! them (`"0"`, `"0.1"`, ...), with the facts that tie the rows of the
//! flattened tree to the comments they show.
use vstd::prelude::*;

use crate::app::{item_of, path_text, walk, FocusItemView};
use crate::model::CommentView;
use crate::text::{dec, digit_char, starts_with};

verus! {

// ---------------------------------------------------------------------------
// Decimal numerals
// ---------------------------------------------------------------------------

/// The value of a digit character.
pub open spec fn digit_value(c: char) -> int {
    (c as u32) as int - 48
}

/// The value of a string of digit characters.
pub open spec fn numeral_value(s: Seq<char>) -> int
    decreases s.len(),
{
    if s.len() == 0 {
        0
    } else {
        numeral_value(s.drop_last()) * 10 + digit_value(s.last())
    }
}

pub proof fn lemma_digit(d: nat)
    requires
        d < 10,
    ensures
        digit_value(digit_char(d)) == d,
        digit_char(d) != '.',
{
}

pub proof fn lemma_dec(n: nat)
    ensures
        dec(n).len() >= 1,
        forall|k: int| 0 <= k < dec(n).len() ==> dec(n)[k] != '.',
        numeral_value(dec(n)) == n,
    decreases n,
{
    assert(numeral_value(Seq::<char>::empty()) == 0);
    if n < 10 {
        lemma_digit(n);
        assert(dec(n) =~= seq![digit_char(n)]);
        assert(seq![digit_char(n)].drop_last() =~= Seq::<char>::empty());
        assert(numeral_value(dec(n)) == numeral_value(Seq::<char>::empty()) * 10 + digit_value(digit_char(n)));
    } else {
        lemma_dec(n / 10);
        lemma_digit(n % 10);
        let s = dec(n);
        assert(s =~= dec(n / 10).push(digit_char(n % 10)));
        assert(s.drop_last() =~= dec(n / 10));
        assert forall|k: int| 0 <= k < s.len() implies s[k] != '.' by {
            if k < s.len() - 1 {
                assert(s[k] == dec(n / 10)[k]);
            }
        }
        assert(s.last() == digit_char(n % 10));
        assert(numeral_value(s) == numeral_value(dec(n / 10)) * 10 + digit_value(digit_char(n % 10)));
        assert((n / 10) * 10 + n % 10 == n);
    }
}

pub proof fn lemma_dec_injective(x: nat, y: nat)
    requires
        dec(x) == dec(y),
    ensures
        x == y,
{
    lemma_dec(x);
    lemma_dec(y);
}

// ---------------------------------------------------------------------------
// Dotted paths
// ---------------------------------------------------------------------------

/// The dotted path of the comment at address `a` (the indices from the top).
pub open spec fn encode(a: Seq<nat>) -> Seq<char>
    decreases a.len(),
{
    if a.len() == 0 {
        seq![]
    } else if a.len() == 1 {
        dec(a[0])
    } else {
        dec(a[0]) + seq!['.'] + encode(a.drop_first())
    }
}

/// The path of child `i` of the comment at `a` is the path of `a` extended.
pub proof fn lemma_encode_push(a: Seq<nat>, i: nat)
    ensures
        encode(a.push(i)) == path_text(encode(a), i),
        encode(a.push(i)).len() >= 1,
    decreases a.len(),
{
    lemma_dec(i);
    if a.len() == 0 {
        assert(a.push(i) =~= seq![i]);
    } else if a.len() == 1 {
        lemma_dec(a[0]);
        assert(a.push(i).drop_first() =~= seq![i]);
        assert(encode(a.push(i).drop_first()) == dec(i));
    } else {
        lemma_dec(a[0]);
        assert(a.push(i).drop_first() =~= a.drop_first().push(i));
        lemma_encode_push(a.drop_first(), i);
        lemma_encode_len(a.drop_first());
        assert(encode(a.push(i)) =~= encode(a) + seq!['.'] + dec(i));
    }
}

pub proof fn lemma_encode_len(a: Seq<nat>)
    ensures
        a.len() >= 1 ==> encode(a).len() >= dec(a[0]).len() >= 1,
        a.len() >= 2 ==> encode(a).len() > dec(a[0]).len(),
{
    if a.len() >= 1 {
        lemma_dec(a[0]);
    }
}

/// The characters of a path before its first dot are the first index.
pub proof fn lemma_encode_head(a: Seq<nat>)
    requires
        a.len() >= 1,
    ensures
        encode(a).len() >= dec(a[0]).len(),
        encode(a).take(dec(a[0]).len() as int) == dec(a[0]),
        forall|k: int| 0 <= k < dec(a[0]).len() ==> encode(a)[k] != '.',
        a.len() == 1 ==> encode(a).len() == dec(a[0]).len(),
        a.len() >= 2 ==> encode(a)[dec(a[0]).len() as int] == '.',
        a.len() >= 2 ==> encode(a).skip(dec(a[0]).len() as int + 1) == encode(a.drop_first()),
{
    lemma_dec(a[0]);
    let n = dec(a[0]).len();
    if a.len() >= 2 {
        let s = encode(a);
        assert(s == dec(a[0]) + seq!['.'] + encode(a.drop_first()));
        assert(s.take(n as int) =~= dec(a[0]));
        assert(s.skip(n as int + 1) =~= encode(a.drop_first()));
        assert forall|k: int| 0 <= k < n implies s[k] != '.' by {
            assert(s[k] == dec(a[0])[k]);
        }
    } else {
        assert(encode(a).take(n as int) =~= dec(a[0]));
    }
}

/// Two nonempty addresses with the same first index and the same path
/// before the first dot: the dot positions agree.
proof fn lemma_heads_agree(a: Seq<nat>, b: Seq<nat>, s: Seq<char>, m: int)
    requires
        a.len() >= 1,
        b.len() >= 1,
        m == dec(b[0]).len(),
        m < s.len(),
        s[m] == '.',
        forall|k: int| 0 <= k < m ==> s[k] != '.',
        encode(a).len() >= s.len() || (encode(a).len() > m),
        forall|k: int| 0 <= k <= m && k < encode(a).len() ==> encode(a)[k] == s[k],
        forall|k: int| 0 <= k < m ==> dec(b[0])[k] == s[k],
    ensures
        dec(a[0]).len() == m,
        a[0] == b[0],
        a.len() >= 2,
{
    lemma_encode_head(a);
    lemma_encode_head(b);
    let n = dec(a[0]).len() as int;
    if n < m {
        if a.len() >= 2 {
            assert(encode(a)[n] == '.');
            assert(s[n] == '.');
        } else {
            assert(encode(a).len() == n);
        }
    }
    if n > m {
        assert(encode(a)[m] == dec(a[0])[m]);
        assert(encode(a)[m] != '.');
    }
    assert(n == m);
    assert(dec(a[0]) =~= dec(b[0])) by {
        assert(dec(a[0]) == encode(a).take(m));
        assert forall|k: int| 0 <= k < m implies dec(a[0])[k] == dec(b[0])[k] by {
            assert(encode(a).take(m)[k] == encode(a)[k]);
            assert(encode(a)[k] == s[k]);
            assert(dec(b[0])[k] == s[k]);
        }
    }
    lemma_dec_injective(a[0], b[0]);
    if a.len() == 1 {
        assert(encode(a).len() == n);
    }
}

/// A path that begins with the path of `b` and a dot belongs to a comment
/// below `b`.
pub proof fn lemma_encode_prefix(a: Seq<nat>, b: Seq<nat>)
    requires
        b.len() >= 1,
        starts_with(encode(a), encode(b) + seq!['.']),
    ensures
        b.len() < a.len(),
        a.take(b.len() as int) == b,
    decreases b.len(),
{
    let t = encode(b) + seq!['.'];
    let s = encode(a);
    lemma_encode_head(b);
    let m = dec(b[0]).len() as int;
    assert(t[m] == '.') by {
        if b.len() >= 2 {
            assert(t[m] == encode(b)[m]);
        } else {
            assert(t[m] == seq!['.'][0]);
        }
    }
    assert forall|k: int| 0 <= k < m implies t[k] != '.' && dec(b[0])[k] == t[k] by {
        assert(t[k] == encode(b)[k]);
        assert(encode(b).take(m)[k] == dec(b[0])[k]);
    }
    assert forall|k: int| 0 <= k < t.len() implies s[k] == t[k] by {
        assert(s.take(t.len() as int)[k] == s[k]);
    }
    if a.len() == 0 {
        assert(s.len() == 0);
    }
    lemma_heads_agree(a, b, t, m);
    if b.len() >= 2 {
        let a1 = a.drop_first();
        let b1 = b.drop_first();
        lemma_encode_head(a);
        assert(starts_with(encode(a1), encode(b1) + seq!['.'])) by {
            let t1 = encode(b1) + seq!['.'];
            assert(encode(b).skip(m + 1) == encode(b1));
            assert(encode(a).skip(m + 1) == encode(a1));
            assert(t1.len() <= encode(a1).len());
            assert(encode(a1).take(t1.len() as int) =~= t1) by {
                assert forall|k: int| 0 <= k < t1.len() implies encode(a1)[k] == t1[k] by {
                    assert(encode(a1)[k] == s[m + 1 + k]);
                    assert(t[m + 1 + k] == t1[k]);
                }
            }
        }
        lemma_encode_prefix(a1, b1);
        assert(a.take(b.len() as int) =~= b) by {
            assert forall|k: int| 0 <= k < b.len() implies a.take(b.len() as int)[k] == b[k] by {
                if k > 0 {
                    assert(a1.take(b1.len() as int)[k - 1] == b1[k - 1]);
                }
            }
        }
    } else {
        assert(a.take(1) =~= b);
    }
}

/// Different addresses have different paths.
pub proof fn lemma_encode_injective(a: Seq<nat>, b: Seq<nat>)
    requires
        a.len() >= 1,
        b.len() >= 1,
        encode(a) == encode(b),
    ensures
        a == b,
    decreases a.len(),
{
    lemma_encode_head(a);
    lemma_encode_head(b);
    let s = encode(a);
    let n = dec(a[0]).len() as int;
    let m = dec(b[0]).len() as int;
    if n < m {
        if a.len() >= 2 {
            assert(s[n] == '.');
        } else {
            assert(s.len() == n);
        }
    }
    if m < n {
        if b.len() >= 2 {
            assert(s[m] == '.');
        } else {
            assert(s.len() == m);
        }
    }
    assert(n == m);
    assert(dec(a[0]) == dec(b[0]));
    lemma_dec_injective(a[0], b[0]);
    if a.len() == 1 {
        if b.len() >= 2 {
            assert(s[m] == '.');
        }
        assert(a =~= b);
    } else {
        if b.len() == 1 {
            assert(s[n] == '.');
        }
        lemma_encode_injective(a.drop_first(), b.drop_first());
        assert(a =~= b) by {
            assert forall|k: int| 0 <= k < a.len() implies a[k] == b[k] by {
                if k > 0 {
                    assert(a.drop_first()[k - 1] == b.drop_first()[k - 1]);
                }
            }
        }
    }
}

/// The path of a comment begins with the path of each comment above it.
pub proof fn lemma_encode_take(a: Seq<nat>, k: int)
    requires
        1 <= k < a.len(),
    ensures
        starts_with(encode(a), encode(a.take(k)) + seq!['.']),
        encode(a.take(k)).len() < encode(a).len(),
    decreases k,
{
    lemma_encode_head(a);
    let n = dec(a[0]).len() as int;
    let s = encode(a);
    if k == 1 {
        assert(a.take(1) =~= seq![a[0]]);
        assert(encode(a.take(1)) == dec(a[0]));
        assert(s.take(n + 1) =~= dec(a[0]) + seq!['.']) by {
            assert forall|j: int| 0 <= j < n + 1 implies s.take(n + 1)[j] == (dec(a[0]) + seq!['.'])[j] by {
                if j < n {
                    assert(s.take(n)[j] == s[j]);
                }
            }
        }
    } else {
        let a1 = a.drop_first();
        lemma_encode_take(a1, k - 1);
        assert(a.take(k).drop_first() =~= a1.take(k - 1));
        lemma_encode_head(a.take(k));
        assert(a.take(k)[0] == a[0]);
        let t1 = encode(a1.take(k - 1)) + seq!['.'];
        let t = encode(a.take(k)) + seq!['.'];
        assert(encode(a.take(k)) == dec(a[0]) + seq!['.'] + encode(a1.take(k - 1)));
        assert(s == dec(a[0]) + seq!['.'] + encode(a1));
        assert(s.take(t.len() as int) =~= t) by {
            assert forall|j: int| 0 <= j < t.len() implies s.take(t.len() as int)[j] == t[j] by {
                if j > n {
                    assert(encode(a1).take(t1.len() as int)[j - n - 1] == t1[j - n - 1]);
                }
            }
        }
    }
}

// ---------------------------------------------------------------------------
// Addresses in a comment tree
// ---------------------------------------------------------------------------

/// The comment at address `a`: `a[0]` is an index into `cs`, the rest an
/// address among its replies.
pub open spec fn node_at(cs: Seq<CommentView>, a: Seq<nat>) -> Option<CommentView>
    decreases a.len(),
{
    if a.len() == 0 || a[0] >= cs.len() {
        None
    } else if a.len() == 1 {
        Some(cs[a[0] as int])
    } else {
        node_at(cs[a[0] as int].replies, a.drop_first())
    }
}

/// Whether the comment at address `a` (below the comment at `pre`) is shown:
/// it exists and every comment above it, up to `pre`, is expanded.
pub open spec fn shown(cs: Seq<CommentView>, a: Seq<nat>, exp: Set<Seq<char>>, pre: Seq<nat>) -> bool {
    &&& node_at(cs, a) is Some
    &&& forall|k: int| 1 <= k < a.len() ==> exp.contains(#[trigger] encode(pre + a.take(k)))
}

/// The row that shows the comment at `a` below `pre` at depth `d`.
pub open spec fn row_for(cs: Seq<CommentView>, a: Seq<nat>, pre: Seq<nat>, d: nat) -> FocusItemView {
    item_of(node_at(cs, a)->0, encode(pre + a), (d + a.len() - 1) as nat)
}

pub proof fn lemma_node_at_drop_last(cs: Seq<CommentView>, a: Seq<nat>)
    requires
        cs.len() >= 1,
        a.len() >= 1,
        a[0] < cs.len() - 1,
    ensures
        node_at(cs.drop_last(), a) == node_at(cs, a),
{
    assert(cs.drop_last()[a[0] as int] == cs[a[0] as int]);
}

pub proof fn lemma_node_at_child(cs: Seq<CommentView>, a: Seq<nat>, j: nat)
    requires
        node_at(cs, a) is Some,
        j < node_at(cs, a)->0.replies.len(),
    ensures
        node_at(cs, a.push(j)) == Some(node_at(cs, a)->0.replies[j as int]),
    decreases a.len(),
{
    let r = cs[a[0] as int].replies;
    assert(a.push(j)[0] == a[0]);
    if a.len() == 1 {
        assert(a.push(j).drop_first() =~= seq![j]);
        assert(node_at(cs, a) == Some(cs[a[0] as int]));
        assert(node_at(r, seq![j]) == Some(r[j as int]));
        assert(node_at(cs, a.push(j)) == node_at(r, a.push(j).drop_first()));
    } else {
        assert(a.push(j).drop_first() =~= a.drop_first().push(j));
        assert(node_at(cs, a) == node_at(r, a.drop_first()));
        lemma_node_at_child(r, a.drop_first(), j);
        assert(node_at(cs, a.push(j)) == node_at(r, a.push(j).drop_first()));
    }
}

/// The address of the comment that row `j` of a walk shows, and where in
/// the walk's three parts (the earlier comments, the last comment, the last
/// comment's replies) the row lies.
pub proof fn row_address(cs: Seq<CommentView>, pre: Seq<nat>, d: nat, exp: Set<Seq<char>>, j: int) -> (a:
    Seq<nat>)
    requires
        0 <= j < walk(cs, encode(pre), d, exp).len(),
    ensures
        shown(cs, a, exp, pre),
        walk(cs, encode(pre), d, exp)[j] == row_for(cs, a, pre, d),
        a.len() >= 1,
        cs.len() >= 1,
        j < walk(cs.drop_last(), encode(pre), d, exp).len() ==> a[0] < cs.len() - 1,
        j >= walk(cs.drop_last(), encode(pre), d, exp).len() ==> a[0] == cs.len() - 1,
        j == walk(cs.drop_last(), encode(pre), d, exp).len() ==> a.len() == 1,
        j > walk(cs.drop_last(), encode(pre), d, exp).len() ==> a.len() >= 2,
    decreases cs,
{
    let i = (cs.len() - 1) as nat;
    let c = cs.last();
    let p = path_text(encode(pre), i);
    let cs1 = cs.drop_last();
    lemma_encode_push(pre, i);
    let w1 = walk(cs1, encode(pre), d, exp);
    let sub = if c.replies.len() > 0 && exp.contains(p) {
        walk(c.replies, p, d + 1, exp)
    } else {
        seq![]
    };
    let w = walk(cs, encode(pre), d, exp);
    assert(w == w1 + seq![item_of(c, p, d)] + sub);
    if j < w1.len() {
        let a = row_address(cs1, pre, d, exp, j);
        lemma_node_at_drop_last(cs, a);
        assert(w[j] == w1[j]);
        assert(shown(cs, a, exp, pre));
        assert(row_for(cs1, a, pre, d) == row_for(cs, a, pre, d));
        a
    } else if j == w1.len() {
        let a = seq![i];
        assert(pre + a =~= pre.push(i));
        assert(node_at(cs, a) == Some(c));
        assert(shown(cs, a, exp, pre));
        assert(w[j] == item_of(c, p, d));
        assert(row_for(cs, a, pre, d) == item_of(c, encode(pre.push(i)), d));
        a
    } else {
        let j2 = j - w1.len() - 1;
        assert(w[j] == sub[j2]);
        let pre2 = pre.push(i);
        assert(c.replies.len() > 0 && exp.contains(p));
        let a2 = row_address(c.replies, pre2, d + 1, exp, j2);
        let a = seq![i] + a2;
        assert(a.drop_first() =~= a2);
        assert(node_at(cs, a) == node_at(c.replies, a2));
        assert(pre + a =~= pre2 + a2);
        assert forall|k: int| 1 <= k < a.len() implies exp.contains(#[trigger] encode(pre + a.take(k))) by {
            if k == 1 {
                assert(pre + a.take(1) =~= pre2);
            } else {
                assert(pre + a.take(k) =~= pre2 + a2.take(k - 1));
                assert(exp.contains(encode(pre2 + a2.take(k - 1))));
            }
        }
        assert(shown(cs, a, exp, pre));
        assert(row_for(c.replies, a2, pre2, d + 1) == row_for(cs, a, pre, d));
        a
    }
}

/// Every shown comment has a row in the walk.
pub proof fn lemma_walk_complete(
    cs: Seq<CommentView>,
    pre: Seq<nat>,
    d: nat,
    exp: Set<Seq<char>>,
    a: Seq<nat>,
)
    requires
        shown(cs, a, exp, pre),
    ensures
        exists|j: int|
            0 <= j < walk(cs, encode(pre), d, exp).len() && #[trigger] walk(cs, encode(pre), d, exp)[j]
                == row_for(cs, a, pre, d),
    decreases cs,
{
    let i = (cs.len() - 1) as nat;
    let c = cs.last();
    let p = path_text(encode(pre), i);
    let cs1 = cs.drop_last();
    lemma_encode_push(pre, i);
    let w1 = walk(cs1, encode(pre), d, exp);
    let sub = if c.replies.len() > 0 && exp.contains(p) {
        walk(c.replies, p, d + 1, exp)
    } else {
        seq![]
    };
    let w = walk(cs, encode(pre), d, exp);
    assert(w == w1 + seq![item_of(c, p, d)] + sub);
    if a[0] < i {
        lemma_node_at_drop_last(cs, a);
        assert(shown(cs1, a, exp, pre));
        lemma_walk_complete(cs1, pre, d, exp, a);
        let j = choose|j: int| 0 <= j < w1.len() && #[trigger] w1[j] == row_for(cs1, a, pre, d);
        assert(w[j] == w1[j]);
    } else if a.len() == 1 {
        assert(a =~= seq![i]);
        assert(pre + a =~= pre.push(i));
        assert(w[w1.len() as int] == row_for(cs, a, pre, d));
    } else {
        let a2 = a.drop_first();
        let pre2 = pre.push(i);
        assert(a[0] == i);
        assert(node_at(cs, a) == node_at(c.replies, a2));
        assert(pre + a.take(1) =~= pre2);
        assert(exp.contains(encode(pre + a.take(1))));
        assert(c.replies.len() > 0);
        assert forall|k: int| 1 <= k < a2.len() implies exp.contains(#[trigger] encode(pre2 + a2.take(k))) by {
            assert(pre2 + a2.take(k) =~= pre + a.take(k + 1));
            assert(exp.contains(encode(pre + a.take(k + 1))));
        }
        assert(shown(c.replies, a2, exp, pre2));
        lemma_walk_complete(c.replies, pre2, d + 1, exp, a2);
        let j2 = choose|j: int| 0 <= j < sub.len() && #[trigger] sub[j] == row_for(c.replies, a2, pre2, d + 1);
        assert(pre + a =~= pre2 + a2);
        assert(w[w1.len() + 1 + j2] == sub[j2]);
    }
}

/// The rows of a walk have different paths.
pub proof fn lemma_walk_distinct(cs: Seq<CommentView>, pre: Seq<nat>, d: nat, exp: Set<Seq<char>>)
    ensures
        forall|j1: int, j2: int|
            0 <= j1 < walk(cs, encode(pre), d, exp).len() && 0 <= j2 < walk(
                cs,
                encode(pre),
                d,
                exp,
            ).len() && j1 != j2 ==> #[trigger] walk(cs, encode(pre), d, exp)[j1].path
                != #[trigger] walk(cs, encode(pre), d, exp)[j2].path,
    decreases cs,
{
    if cs.len() > 0 {
        let i = (cs.len() - 1) as nat;
        let c = cs.last();
        let p = path_text(encode(pre), i);
        let cs1 = cs.drop_last();
        lemma_encode_push(pre, i);
        lemma_walk_distinct(cs1, pre, d, exp);
        let w1 = walk(cs1, encode(pre), d, exp);
        let sub = if c.replies.len() > 0 && exp.contains(p) {
            walk(c.replies, p, d + 1, exp)
        } else {
            seq![]
        };
        let pre2 = pre.push(i);
        if c.replies.len() > 0 && exp.contains(p) {
            lemma_walk_distinct(c.replies, pre2, d + 1, exp);
        }
        let w = walk(cs, encode(pre), d, exp);
        assert(w == w1 + seq![item_of(c, p, d)] + sub);
        assert forall|j1: int, j2: int|
            0 <= j1 < w.len() && 0 <= j2 < w.len() && j1 != j2 implies #[trigger] w[j1].path
            != #[trigger] w[j2].path by {
            if j1 < w1.len() && j2 < w1.len() {
                assert(w[j1] == w1[j1] && w[j2] == w1[j2]);
            } else if j1 > w1.len() && j2 > w1.len() {
                assert(w[j1] == sub[j1 - w1.len() - 1] && w[j2] == sub[j2 - w1.len() - 1]);
            } else {
                let a1 = row_address(cs, pre, d, exp, j1);
                let a2 = row_address(cs, pre, d, exp, j2);
                assert(a1 != a2) by {
                    if a1 == a2 {
                        assert(a1[0] == a2[0]);
                        assert(a1.len() == a2.len());
                    }
                }
                if w[j1].path == w[j2].path {
                    lemma_encode_injective(pre + a1, pre + a2);
                    assert(a1 =~= (pre + a1).skip(pre.len() as int));
                    assert(a2 =~= (pre + a2).skip(pre.len() as int));
                }
            }
        }
    }
}

} // verus!
