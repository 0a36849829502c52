//! Character-level text utilities: conversions between strings and character
//! vectors, decimal formatting, Unicode whitespace, trimming and splitting
//! text into lines, paragraphs and words.
use vstd::prelude::*;

verus! {

/// `String::push` appends one character at the end of the string.
pub assume_specification[ String::push ](s: &mut String, ch: char)
    ensures
        final(s)@ == old(s)@.push(ch),
;

/// `String::pop` removes the last character, if any, and returns it.
pub assume_specification[ String::pop ](s: &mut String) -> (r: Option<char>)
    ensures
        old(s)@.len() == 0 ==> r is None && final(s)@ == old(s)@,
        old(s)@.len() > 0 ==> r == Some(old(s)@.last()) && final(s)@ == old(s)@.drop_last(),
;

/// `String::clear` truncates the string to length zero.
pub assume_specification[ String::clear ](s: &mut String)
    ensures
        final(s)@ == Seq::<char>::empty(),
;

/// The views of a sequence of character vectors.
pub open spec fn seqs_of(v: Seq<Vec<char>>) -> Seq<Seq<char>> {
    v.map_values(|x: Vec<char>| x@)
}

/// The views of a sequence of strings.
pub open spec fn strs_of(v: Seq<String>) -> Seq<Seq<char>> {
    v.map_values(|x: String| x@)
}

/// The characters of a string slice, in order.
pub fn chars_of(s: &str) -> (v: Vec<char>)
    ensures
        v@ == s@,
{
    let mut v: Vec<char> = Vec::new();
    for c in it: s.chars()
        invariant
            v@ == it.seq().take(it.index() as int),
    {
        v.push(c);
    }
    v
}

/// Appends the characters `v[from..to]` to `s`.
pub fn push_range(s: &mut String, v: &Vec<char>, from: usize, to: usize)
    requires
        from <= to <= v@.len(),
    ensures
        final(s)@ == old(s)@ + v@.subrange(from as int, to as int),
{
    let mut i = from;
    while i < to
        invariant
            from <= i <= to <= v@.len(),
            s@ == old(s)@ + v@.subrange(from as int, i as int),
        decreases to - i,
    {
        s.push(v[i]);
        assert(v@.subrange(from as int, i + 1) =~= v@.subrange(from as int, i as int).push(v@[i as int]));
        i += 1;
    }
}

/// Appends all characters of `v` to `s`.
pub fn push_chars(s: &mut String, v: &Vec<char>)
    ensures
        final(s)@ == old(s)@ + v@,
{
    push_range(s, v, 0, v.len());
    assert(v@.subrange(0, v@.len() as int) =~= v@);
}

/// A string made of the characters `v[from..to]`.
pub fn string_of_range(v: &Vec<char>, from: usize, to: usize) -> (s: String)
    requires
        from <= to <= v@.len(),
    ensures
        s@ == v@.subrange(from as int, to as int),
{
    let mut s = String::new();
    push_range(&mut s, v, from, to);
    assert(Seq::<char>::empty() + v@.subrange(from as int, to as int) =~= v@.subrange(from as int, to as int));
    s
}

/// A string made of the characters of `v`.
pub fn string_of(v: &Vec<char>) -> (s: String)
    ensures
        s@ == v@,
{
    let s = string_of_range(v, 0, v.len());
    assert(v@.subrange(0, v@.len() as int) =~= v@);
    s
}

/// Appends a string slice to a string.
pub fn push_str(s: &mut String, t: &str)
    ensures
        final(s)@ == old(s)@ + t@,
{
    s.append(t);
}

/// A new string holding the characters of a string slice.
pub fn owned(t: &str) -> (s: String)
    ensures
        s@ == t@,
{
    String::from_str(t)
}

// ---------------------------------------------------------------------------
// Decimal formatting
// ---------------------------------------------------------------------------

/// The ASCII digit for `d`, for `0 <= d < 10`.
pub open spec fn digit_char(d: nat) -> char {
    if d == 0 {
        '0'
    } else if d == 1 {
        '1'
    } else if d == 2 {
        '2'
    } else if d == 3 {
        '3'
    } else if d == 4 {
        '4'
    } else if d == 5 {
        '5'
    } else if d == 6 {
        '6'
    } else if d == 7 {
        '7'
    } else if d == 8 {
        '8'
    } else {
        '9'
    }
}

/// The decimal representation of a natural number, without leading zeros
/// (the representation of zero is `"0"`).
pub open spec fn dec(n: nat) -> Seq<char>
    decreases n,
{
    if n < 10 {
        seq![digit_char(n)]
    } else {
        dec(n / 10).push(digit_char(n % 10))
    }
}

fn digit(d: u64) -> (c: char)
    requires
        d < 10,
    ensures
        c == digit_char(d as nat),
{
    if d == 0 {
        '0'
    } else if d == 1 {
        '1'
    } else if d == 2 {
        '2'
    } else if d == 3 {
        '3'
    } else if d == 4 {
        '4'
    } else if d == 5 {
        '5'
    } else if d == 6 {
        '6'
    } else if d == 7 {
        '7'
    } else if d == 8 {
        '8'
    } else {
        '9'
    }
}

/// Appends the decimal representation of `n` to `s`.
pub fn push_decimal(s: &mut String, n: u64)
    ensures
        final(s)@ == old(s)@ + dec(n as nat),
    decreases n,
{
    if n >= 10 {
        push_decimal(s, n / 10);
    }
    s.push(digit(n % 10));
    assert(dec(n as nat) =~= if n < 10 {
        seq![digit_char(n as nat)]
    } else {
        dec((n / 10) as nat).push(digit_char((n % 10) as nat))
    });
}

/// The decimal representation of `n`, as `n.to_string()` writes it.
pub fn decimal(n: u64) -> (r: String)
    ensures
        r@ == dec(n as nat),
{
    let mut s = String::new();
    push_decimal(&mut s, n);
    assert(Seq::<char>::empty() + dec(n as nat) =~= dec(n as nat));
    s
}

// ---------------------------------------------------------------------------
// Whitespace and trimming
// ---------------------------------------------------------------------------

/// The characters with the Unicode `White_Space` property (the set that
/// `char::is_whitespace` recognises).
pub open spec fn is_ws(c: char) -> bool {
    let u = c as u32;
    ||| 9 <= u <= 13
    ||| u == 32
    ||| u == 0x85
    ||| u == 0xA0
    ||| u == 0x1680
    ||| 0x2000 <= u <= 0x200A
    ||| u == 0x2028
    ||| u == 0x2029
    ||| u == 0x202F
    ||| u == 0x205F
    ||| u == 0x3000
}

/// Whether `c` is a Unicode whitespace character.
pub fn is_whitespace(c: char) -> (b: bool)
    ensures
        b == is_ws(c),
{
    let u = c as u32;
    (9 <= u && u <= 13) || u == 32 || u == 0x85 || u == 0xA0 || u == 0x1680 || (0x2000 <= u && u
        <= 0x200A) || u == 0x2028 || u == 0x2029 || u == 0x202F || u == 0x205F || u == 0x3000
}

/// `s` without its leading whitespace.
pub open spec fn trim_start(s: Seq<char>) -> Seq<char>
    decreases s.len(),
{
    if s.len() > 0 && is_ws(s[0]) {
        trim_start(s.drop_first())
    } else {
        s
    }
}

/// `s` without its trailing whitespace.
pub open spec fn trim_end(s: Seq<char>) -> Seq<char>
    decreases s.len(),
{
    if s.len() > 0 && is_ws(s.last()) {
        trim_end(s.drop_last())
    } else {
        s
    }
}

/// `s` without leading and trailing whitespace, as `str::trim` gives it.
pub open spec fn trim(s: Seq<char>) -> Seq<char> {
    trim_end(trim_start(s))
}

/// The characters of `v` without leading and trailing whitespace.
pub fn trim_chars(v: &Vec<char>) -> (r: Vec<char>)
    ensures
        r@ == trim(v@),
{
    let n = v.len();
    let mut i: usize = 0;
    assert(v@.skip(0) =~= v@);
    while i < n && is_whitespace(v[i])
        invariant
            n == v@.len(),
            i <= n,
            trim_start(v@) == trim_start(v@.skip(i as int)),
        decreases n - i,
    {
        assert(v@.skip(i as int).drop_first() =~= v@.skip(i + 1));
        i += 1;
    }
    let ghost s2 = v@.skip(i as int);
    assert(trim_start(v@) == s2);
    let mut j: usize = n;
    while j > i && is_whitespace(v[j - 1])
        invariant
            n == v@.len(),
            i <= j <= n,
            s2 == v@.skip(i as int),
            trim_end(s2) == trim_end(v@.subrange(i as int, j as int)),
        decreases j,
    {
        assert(v@.subrange(i as int, j as int).drop_last() =~= v@.subrange(i as int, j - 1));
        j -= 1;
    }
    assert(v@.subrange(i as int, n as int) =~= s2);
    let mut r: Vec<char> = Vec::new();
    let mut k = i;
    while k < j
        invariant
            i <= k <= j <= n == v@.len(),
            r@ == v@.subrange(i as int, k as int),
        decreases j - k,
    {
        r.push(v[k]);
        assert(v@.subrange(i as int, k + 1) =~= v@.subrange(i as int, k as int).push(v@[k as int]));
        k += 1;
    }
    r
}

/// A string slice without leading and trailing whitespace.
pub fn trim_str(s: &str) -> (r: String)
    ensures
        r@ == trim(s@),
{
    let v = chars_of(s);
    let t = trim_chars(&v);
    string_of(&t)
}

// ---------------------------------------------------------------------------
// Prefixes
// ---------------------------------------------------------------------------

/// Whether `s` begins with `p`.
pub open spec fn starts_with(s: Seq<char>, p: Seq<char>) -> bool {
    p.len() <= s.len() && s.take(p.len() as int) == p
}

/// Whether the characters `v` begin with the characters `p`.
pub fn chars_start_with(v: &Vec<char>, p: &Vec<char>) -> (b: bool)
    ensures
        b == starts_with(v@, p@),
{
    if p.len() > v.len() {
        return false;
    }
    let mut i: usize = 0;
    while i < p.len()
        invariant
            p@.len() <= v@.len(),
            i <= p@.len(),
            forall|k: int| 0 <= k < i ==> v@[k] == p@[k],
        decreases p.len() - i,
    {
        if v[i] != p[i] {
            assert(v@.take(p@.len() as int)[i as int] != p@[i as int]);
            return false;
        }
        i += 1;
    }
    assert(v@.take(p@.len() as int) =~= p@);
    true
}

/// Whether string `s` begins with string slice `p`.
pub fn str_starts_with(s: &str, p: &str) -> (b: bool)
    ensures
        b == starts_with(s@, p@),
{
    let v = chars_of(s);
    let w = chars_of(p);
    chars_start_with(&v, &w)
}

/// Whether two strings hold the same characters.
pub fn same_text(a: &str, b: &str) -> (r: bool)
    ensures
        r == (a@ == b@),
{
    let x = owned(a);
    let y = owned(b);
    x == y
}

// ---------------------------------------------------------------------------
// Lines and paragraphs
// ---------------------------------------------------------------------------

/// The index of the first newline in `s`, or `s.len()` when there is none.
pub open spec fn nl_pos(s: Seq<char>) -> nat
    decreases s.len(),
{
    if s.len() == 0 {
        0
    } else if s[0] == '\n' {
        0
    } else {
        1 + nl_pos(s.drop_first())
    }
}

/// Whether `s` holds no newline.
pub open spec fn no_nl(s: Seq<char>) -> bool {
    forall|k: int| 0 <= k < s.len() ==> s[k] != '\n'
}

/// `l` without one trailing carriage return.
pub open spec fn strip_cr(l: Seq<char>) -> Seq<char> {
    if l.len() > 0 && l.last() == '\r' {
        l.drop_last()
    } else {
        l
    }
}

/// The lines of `s` as `str::lines` yields them: `s` is cut after each
/// newline, a final empty piece is not a line, and a line that ended with a
/// newline loses that newline and then one carriage return before it.
pub open spec fn lines(s: Seq<char>) -> Seq<Seq<char>>
    decreases s.len(),
{
    if s.len() == 0 {
        seq![]
    } else {
        let k = nl_pos(s);
        if k < s.len() {
            seq![strip_cr(s.take(k as int))] + lines(s.skip(k as int + 1))
        } else {
            seq![s]
        }
    }
}

/// The pieces of `s` between newlines, as `str::split('\n')` yields them
/// (there is always at least one piece).
pub open spec fn split_nl(s: Seq<char>) -> Seq<Seq<char>>
    decreases s.len(),
{
    let k = nl_pos(s);
    if k < s.len() {
        seq![s.take(k as int)] + split_nl(s.skip(k as int + 1))
    } else {
        seq![s]
    }
}

pub proof fn lemma_nl_pos_bound(s: Seq<char>)
    ensures
        nl_pos(s) <= s.len(),
        nl_pos(s) < s.len() ==> s[nl_pos(s) as int] == '\n',
        forall|k: int| 0 <= k < nl_pos(s) ==> s[k] != '\n',
    decreases s.len(),
{
    if s.len() > 0 && s[0] != '\n' {
        lemma_nl_pos_bound(s.drop_first());
        assert forall|k: int| 0 <= k < nl_pos(s) implies s[k] != '\n' by {
            if k > 0 {
                assert(s[k] == s.drop_first()[k - 1]);
            }
        }
    }
}

/// A newline-free prefix shifts the first newline by its length.
pub proof fn lemma_nl_pos_append(c: Seq<char>, r: Seq<char>)
    requires
        no_nl(c),
    ensures
        nl_pos(c + r) == c.len() + nl_pos(r),
    decreases c.len(),
{
    if c.len() > 0 {
        assert((c + r).drop_first() =~= c.drop_first() + r);
        lemma_nl_pos_append(c.drop_first(), r);
    } else {
        assert(c + r =~= r);
    }
}

pub proof fn lemma_nl_pos_full(c: Seq<char>)
    requires
        no_nl(c),
    ensures
        nl_pos(c) == c.len(),
{
    lemma_nl_pos_append(c, seq![]);
    assert(c + Seq::<char>::empty() =~= c);
}

/// Splits the characters `v` into lines, as `str::lines` does.
pub fn split_lines(v: &Vec<char>) -> (r: Vec<Vec<char>>)
    ensures
        seqs_of(r@) == lines(v@),
{
    let mut r: Vec<Vec<char>> = Vec::new();
    let mut cur: Vec<char> = Vec::new();
    let n = v.len();
    let mut i: usize = 0;
    assert(cur@ + v@.skip(0) =~= v@);
    while i < n
        invariant
            n == v@.len(),
            i <= n,
            no_nl(cur@),
            lines(v@) == seqs_of(r@) + lines(cur@ + v@.skip(i as int)),
        decreases n - i,
    {
        let c = v[i];
        let ghost s = cur@ + v@.skip(i as int);
        if c == '\n' {
            let ghost old_cur = cur@;
            let ghost old_r = r@;
            proof {
                lemma_nl_pos_append(cur@, v@.skip(i as int));
                assert(nl_pos(v@.skip(i as int)) == 0);
                assert(s.take(old_cur.len() as int) =~= old_cur);
                assert(s.skip(old_cur.len() as int + 1) =~= v@.skip(i + 1));
                assert(lines(s) == seq![strip_cr(old_cur)] + lines(v@.skip(i + 1)));
            }
            let mut line = cur;
            if line.len() > 0 && line[line.len() - 1] == '\r' {
                line.pop();
            }
            assert(line@ == strip_cr(old_cur));
            r.push(line);
            cur = Vec::new();
            proof {
                assert(seqs_of(r@) =~= seqs_of(old_r).push(strip_cr(old_cur)));
                assert(cur@ + v@.skip(i + 1) =~= v@.skip(i + 1));
                assert(seqs_of(old_r) + (seq![strip_cr(old_cur)] + lines(v@.skip(i + 1))) =~= seqs_of(r@) + lines(v@.skip(i + 1)));
            }
        } else {
            cur.push(c);
            assert(cur@ + v@.skip(i + 1) =~= s);
        }
        i += 1;
    }
    if cur.len() > 0 {
        proof {
            lemma_nl_pos_full(cur@);
        }
        r.push(cur);
    }
    assert(v@.skip(n as int) =~= Seq::<char>::empty());
    assert(cur@ + Seq::<char>::empty() =~= cur@);
    r
}

/// Splits the characters `v` at every newline, as `str::split('\n')` does.
pub fn split_newlines(v: &Vec<char>) -> (r: Vec<Vec<char>>)
    ensures
        seqs_of(r@) == split_nl(v@),
{
    let mut r: Vec<Vec<char>> = Vec::new();
    let mut cur: Vec<char> = Vec::new();
    let n = v.len();
    let mut i: usize = 0;
    assert(cur@ + v@.skip(0) =~= v@);
    while i < n
        invariant
            n == v@.len(),
            i <= n,
            no_nl(cur@),
            split_nl(v@) == seqs_of(r@) + split_nl(cur@ + v@.skip(i as int)),
        decreases n - i,
    {
        let c = v[i];
        let ghost s = cur@ + v@.skip(i as int);
        if c == '\n' {
            let ghost old_cur = cur@;
            let ghost old_r = r@;
            proof {
                lemma_nl_pos_append(cur@, v@.skip(i as int));
                assert(nl_pos(v@.skip(i as int)) == 0);
                assert(s.take(old_cur.len() as int) =~= old_cur);
                assert(s.skip(old_cur.len() as int + 1) =~= v@.skip(i + 1));
                assert(split_nl(s) == seq![old_cur] + split_nl(v@.skip(i + 1)));
            }
            r.push(cur);
            cur = Vec::new();
            proof {
                assert(seqs_of(r@) =~= seqs_of(old_r).push(old_cur));
                assert(cur@ + v@.skip(i + 1) =~= v@.skip(i + 1));
                assert(seqs_of(old_r) + (seq![old_cur] + split_nl(v@.skip(i + 1))) =~= seqs_of(r@)
                    + split_nl(v@.skip(i + 1)));
            }
        } else {
            cur.push(c);
            assert(cur@ + v@.skip(i + 1) =~= s);
        }
        i += 1;
    }
    proof {
        lemma_nl_pos_full(cur@);
        assert(v@.skip(n as int) =~= Seq::<char>::empty());
        assert(cur@ + Seq::<char>::empty() =~= cur@);
    }
    let ghost old_r = r@;
    r.push(cur);
    assert(seqs_of(r@) =~= seqs_of(old_r) + seq![cur@]);
    r
}

// ---------------------------------------------------------------------------
// Words
// ---------------------------------------------------------------------------

/// The index of the first whitespace character in `s`, or `s.len()`.
pub open spec fn ws_pos(s: Seq<char>) -> nat
    decreases s.len(),
{
    if s.len() == 0 {
        0
    } else if is_ws(s[0]) {
        0
    } else {
        1 + ws_pos(s.drop_first())
    }
}

/// Whether `s` holds no whitespace.
pub open spec fn no_ws(s: Seq<char>) -> bool {
    forall|k: int| 0 <= k < s.len() ==> !is_ws(#[trigger] s[k])
}

pub proof fn lemma_ws_pos_bound(s: Seq<char>)
    ensures
        ws_pos(s) <= s.len(),
        ws_pos(s) < s.len() ==> is_ws(s[ws_pos(s) as int]),
        forall|k: int| 0 <= k < ws_pos(s) ==> !is_ws(#[trigger] s[k]),
    decreases s.len(),
{
    if s.len() > 0 && !is_ws(s[0]) {
        lemma_ws_pos_bound(s.drop_first());
        assert forall|k: int| 0 <= k < ws_pos(s) implies !is_ws(#[trigger] s[k]) by {
            if k > 0 {
                assert(s[k] == s.drop_first()[k - 1]);
            }
        }
    }
}

/// The whitespace-separated words of `s`, as `str::split_whitespace`
/// yields them.
pub open spec fn words(s: Seq<char>) -> Seq<Seq<char>>
    decreases s.len(),
{
    if s.len() == 0 {
        seq![]
    } else if is_ws(s[0]) {
        words(s.drop_first())
    } else {
        let k = ws_pos(s);
        proof {
            lemma_ws_pos_bound(s);
        }
        seq![s.take(k as int)] + words(s.skip(k as int))
    }
}

pub proof fn lemma_ws_pos_append(c: Seq<char>, r: Seq<char>)
    requires
        no_ws(c),
    ensures
        ws_pos(c + r) == c.len() + ws_pos(r),
    decreases c.len(),
{
    if c.len() > 0 {
        assert((c + r).drop_first() =~= c.drop_first() + r);
        assert(!is_ws((c + r)[0]));
        lemma_ws_pos_append(c.drop_first(), r);
    } else {
        assert(c + r =~= r);
    }
}

/// Splits the characters `v` into whitespace-separated words.
pub fn split_words(v: &Vec<char>) -> (r: Vec<Vec<char>>)
    ensures
        seqs_of(r@) == words(v@),
{
    let mut r: Vec<Vec<char>> = Vec::new();
    let mut cur: Vec<char> = Vec::new();
    let n = v.len();
    let mut i: usize = 0;
    assert(cur@ + v@.skip(0) =~= v@);
    while i < n
        invariant
            n == v@.len(),
            i <= n,
            no_ws(cur@),
            words(v@) == seqs_of(r@) + words(cur@ + v@.skip(i as int)),
        decreases n - i,
    {
        let c = v[i];
        let ghost s = cur@ + v@.skip(i as int);
        if is_whitespace(c) {
            let ghost old_r = r@;
            let ghost old_cur = cur@;
            proof {
                assert(v@.skip(i as int).drop_first() =~= v@.skip(i + 1));
                assert(v@.skip(i as int)[0] == c);
            }
            if cur.len() > 0 {
                proof {
                    lemma_ws_pos_append(old_cur, v@.skip(i as int));
                    assert(ws_pos(v@.skip(i as int)) == 0);
                    assert(s[0] == old_cur[0]);
                    assert(s.take(old_cur.len() as int) =~= old_cur);
                    assert(s.skip(old_cur.len() as int) =~= v@.skip(i as int));
                    assert(words(s) == seq![old_cur] + words(v@.skip(i as int)));
                }
                r.push(cur);
                cur = Vec::new();
                proof {
                    assert(seqs_of(r@) =~= seqs_of(old_r).push(old_cur));
                    assert(seqs_of(old_r) + (seq![old_cur] + words(v@.skip(i + 1))) =~= seqs_of(r@)
                        + words(v@.skip(i + 1)));
                }
            } else {
                assert(s =~= v@.skip(i as int));
            }
            assert(cur@ + v@.skip(i + 1) =~= v@.skip(i + 1));
        } else {
            cur.push(c);
            assert(cur@ + v@.skip(i + 1) =~= s);
        }
        i += 1;
    }
    proof {
        assert(v@.skip(n as int) =~= Seq::<char>::empty());
        assert(cur@ + Seq::<char>::empty() =~= cur@);
    }
    if cur.len() > 0 {
        proof {
            lemma_ws_pos_append(cur@, seq![]);
            assert(cur@ + Seq::<char>::empty() =~= cur@);
            assert(cur@.take(cur@.len() as int) =~= cur@);
            assert(cur@.skip(cur@.len() as int) =~= Seq::<char>::empty());
            assert(words(cur@) == seq![cur@] + words(Seq::<char>::empty()));
        }
        let ghost old_r = r@;
        r.push(cur);
        assert(seqs_of(r@) =~= seqs_of(old_r) + seq![cur@]);
    }
    r
}

/// The characters `v[from..to]`.
pub fn slice_chars(v: &Vec<char>, from: usize, to: usize) -> (r: Vec<char>)
    requires
        from <= to <= v@.len(),
    ensures
        r@ == v@.subrange(from as int, to as int),
{
    let mut r: Vec<char> = Vec::new();
    let mut k = from;
    while k < to
        invariant
            from <= k <= to <= v@.len(),
            r@ == v@.subrange(from as int, k as int),
        decreases to - k,
    {
        r.push(v[k]);
        assert(v@.subrange(from as int, k + 1) =~= v@.subrange(from as int, k as int).push(v@[k as int]));
        k += 1;
    }
    r
}

/// Whether the characters `v` spell the string slice `s`.
pub fn chars_eq(v: &Vec<char>, s: &str) -> (b: bool)
    ensures
        b == (v@ == s@),
{
    let w = chars_of(s);
    if v.len() != w.len() {
        return false;
    }
    let mut i: usize = 0;
    while i < v.len()
        invariant
            v@.len() == w@.len(),
            w@ == s@,
            i <= v@.len(),
            forall|k: int| 0 <= k < i ==> v@[k] == w@[k],
        decreases v.len() - i,
    {
        if v[i] != w[i] {
            return false;
        }
        i += 1;
    }
    assert(v@ =~= w@);
    true
}

} // verus!
