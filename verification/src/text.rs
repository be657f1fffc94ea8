//! Splitting a text on a separator character and trimming white space from
//! tokens, with the mathematical definitions that the parser's contracts use.

use vstd::prelude::*;
use vstd::string::*;

verus! {

/// The Unicode white-space characters, the set that `str::trim` removes.
pub open spec fn is_space_char(c: char) -> bool {
    (9 <= c as u32 && c as u32 <= 13) || c as u32 == 0x20 || c as u32 == 0x85 || c as u32 == 0xA0
        || c as u32 == 0x1680 || (0x2000 <= c as u32 && c as u32 <= 0x200A) || c as u32 == 0x2028
        || c as u32 == 0x2029 || c as u32 == 0x202F || c as u32 == 0x205F || c as u32 == 0x3000
}

/// Runtime test for the same white-space set.
pub fn is_space(c: char) -> (r: bool)
    ensures
        r == is_space_char(c),
{
    let u = c as u32;
    (9 <= u && u <= 13) || u == 0x20 || u == 0x85 || u == 0xA0 || u == 0x1680
        || (0x2000 <= u && u <= 0x200A) || u == 0x2028 || u == 0x2029 || u == 0x202F
        || u == 0x205F || u == 0x3000
}

/// How many times `c` occurs in `s`.
pub open spec fn count_char(s: Seq<char>, c: char) -> nat
    decreases s.len(),
{
    if s.len() == 0 {
        0
    } else {
        count_char(s.drop_first(), c) + if s[0] == c {
            1nat
        } else {
            0nat
        }
    }
}

/// The pieces of `s` between occurrences of `sep`, in order; an empty text
/// yields one empty piece, and `n` separators yield `n + 1` pieces.
pub open spec fn split_on(s: Seq<char>, sep: char) -> Seq<Seq<char>>
    decreases s.len(),
{
    if s.len() == 0 {
        seq![Seq::<char>::empty()]
    } else if s[0] == sep {
        seq![Seq::<char>::empty()] + split_on(s.drop_first(), sep)
    } else {
        let rest = split_on(s.drop_first(), sep);
        seq![seq![s[0]] + rest[0]] + rest.drop_first()
    }
}

pub proof fn lemma_split_on_len(s: Seq<char>, sep: char)
    ensures
        split_on(s, sep).len() == count_char(s, sep) + 1,
    decreases s.len(),
{
    if s.len() > 0 {
        lemma_split_on_len(s.drop_first(), sep);
    }
}

/// Splitting a text whose first separator stands at `i` yields the prefix
/// before `i` and then the split of what follows `i`.
proof fn lemma_split_on_found(s: Seq<char>, sep: char, i: int)
    requires
        0 <= i < s.len(),
        s[i] == sep,
        forall|j: int| 0 <= j < i ==> s[j] != sep,
    ensures
        split_on(s, sep) == seq![s.take(i)] + split_on(s.skip(i + 1), sep),
    decreases i,
{
    if i == 0 {
        assert(s.take(0) =~= Seq::<char>::empty());
        assert(s.skip(1) =~= s.drop_first());
        assert(split_on(s, sep) =~~= seq![s.take(0)] + split_on(s.skip(1), sep));
    } else {
        let d = s.drop_first();
        assert(forall|j: int| 0 <= j < i - 1 ==> d[j] == s[j + 1] && d[j] != sep);
        lemma_split_on_found(d, sep, i - 1);
        let rest = split_on(d, sep);
        assert(seq![s[0]] + d.take(i - 1) =~= s.take(i));
        assert(d.skip(i) =~= s.skip(i + 1));
        assert(rest[0] == d.take(i - 1));
        assert(rest.drop_first() =~~= split_on(s.skip(i + 1), sep));
        assert(split_on(s, sep) =~~= seq![s.take(i)] + split_on(s.skip(i + 1), sep));
    }
}

/// Splitting a text that holds no separator yields that text alone.
proof fn lemma_split_on_not_found(s: Seq<char>, sep: char)
    requires
        forall|j: int| 0 <= j < s.len() ==> s[j] != sep,
    ensures
        split_on(s, sep) == seq![s],
    decreases s.len(),
{
    if s.len() == 0 {
        assert(s =~= Seq::<char>::empty());
        assert(split_on(s, sep) =~~= seq![s]);
    } else {
        let d = s.drop_first();
        assert(forall|j: int| 0 <= j < d.len() ==> d[j] == s[j + 1] && d[j] != sep);
        lemma_split_on_not_found(d, sep);
        assert(seq![s[0]] + d =~= s);
        assert(split_on(s, sep) =~~= seq![s]);
    }
}

/// The first position in `s` at or after `from` holding `sep`, if any.
fn find_from(s: &str, n: usize, from: usize, sep: char) -> (r: Option<usize>)
    requires
        from <= n,
        n == s@.len(),
    ensures
        match r {
            Some(i) => from <= i < n && s@[i as int] == sep && forall|j: int|
                from <= j < i ==> s@[j] != sep,
            None => forall|j: int| from <= j < n ==> s@[j] != sep,
        },
{
    let mut i: usize = from;
    while i < n
        invariant
            from <= i <= n,
            n == s@.len(),
            forall|j: int| from <= j < i ==> s@[j] != sep,
        decreases n - i,
    {
        if s.get_char(i) == sep {
            return Some(i);
        }
        i = i + 1;
    }
    None
}

/// Splits `s` on the single character `sep`; the result views as
/// `split_on(s@, sep)`.
pub fn split_str(s: &str, sep: char) -> (r: Vec<String>)
    ensures
        r.deep_view() == split_on(s@, sep),
        r.len() >= 1,
{
    let n = s.unicode_len();
    let mut r: Vec<String> = Vec::new();
    let mut start: usize = 0;
    proof {
        assert(s@.skip(0) =~= s@);
        assert(r.deep_view() + split_on(s@, sep) =~~= split_on(s@, sep));
    }
    loop
        invariant
            start <= n,
            n == s@.len(),
            split_on(s@, sep) == r.deep_view() + split_on(s@.skip(start as int), sep),
        decreases n - start,
    {
        let found = find_from(s, n, start, sep);
        match found {
            Some(i) => {
                let piece = s.substring_char(start, i).to_owned();
                proof {
                    let tail = s@.skip(start as int);
                    assert(forall|j: int|
                        0 <= j < i - start ==> tail[j] == s@[j + start] && tail[j] != sep);
                    lemma_split_on_found(tail, sep, i - start);
                    assert(tail.take(i - start) =~= piece@);
                    assert(tail.skip(i - start + 1) =~= s@.skip(i + 1));
                }
                let ghost old_r = r.deep_view();
                r.push(piece);
                proof {
                    assert(r.deep_view() =~~= old_r + seq![piece@]);
                    assert((old_r + seq![piece@]) + split_on(s@.skip(i + 1), sep) =~~= old_r
                        + (seq![piece@] + split_on(s@.skip(i + 1), sep)));
                }
                start = i + 1;
            },
            None => {
                let piece = s.substring_char(start, n).to_owned();
                proof {
                    let tail = s@.skip(start as int);
                    assert(forall|j: int|
                        0 <= j < tail.len() ==> tail[j] == s@[j + start] && tail[j] != sep);
                    lemma_split_on_not_found(tail, sep);
                    assert(tail =~= piece@);
                }
                let ghost old_r = r.deep_view();
                r.push(piece);
                proof {
                    assert(r.deep_view() =~~= old_r + seq![piece@]);
                    assert(r.deep_view().len() >= 1);
                }
                return r;
            },
        }
    }
}

/// `s` with its leading white space removed.
pub open spec fn trim_start_spec(s: Seq<char>) -> Seq<char>
    decreases s.len(),
{
    if s.len() > 0 && is_space_char(s[0]) {
        trim_start_spec(s.drop_first())
    } else {
        s
    }
}

/// `s` with its trailing white space removed.
pub open spec fn trim_end_spec(s: Seq<char>) -> Seq<char>
    decreases s.len(),
{
    if s.len() > 0 && is_space_char(s.last()) {
        trim_end_spec(s.drop_last())
    } else {
        s
    }
}

/// `s` with white space removed from both ends, as `str::trim` leaves it.
pub open spec fn trim_spec(s: Seq<char>) -> Seq<char> {
    trim_end_spec(trim_start_spec(s))
}

proof fn lemma_trim_start_skip(s: Seq<char>, a: int)
    requires
        0 <= a <= s.len(),
        forall|j: int| 0 <= j < a ==> is_space_char(s[j]),
        a < s.len() ==> !is_space_char(s[a]),
    ensures
        trim_start_spec(s) == s.skip(a),
    decreases a,
{
    if a == 0 {
        assert(s.skip(0) =~= s);
    } else {
        let d = s.drop_first();
        assert(forall|j: int| 0 <= j < a - 1 ==> d[j] == s[j + 1] && is_space_char(d[j]));
        lemma_trim_start_skip(d, a - 1);
        assert(d.skip(a - 1) =~= s.skip(a));
    }
}

proof fn lemma_trim_end_take(s: Seq<char>, b: int)
    requires
        0 <= b <= s.len(),
        forall|j: int| b <= j < s.len() ==> is_space_char(s[j]),
        b > 0 ==> !is_space_char(s[b - 1]),
    ensures
        trim_end_spec(s) == s.take(b),
    decreases s.len() - b,
{
    if b == s.len() {
        assert(s.take(b) =~= s);
    } else {
        let d = s.drop_last();
        assert(is_space_char(s.last()));
        assert(forall|j: int| b <= j < d.len() ==> d[j] == s[j] && is_space_char(d[j]));
        lemma_trim_end_take(d, b);
        assert(d.take(b) =~= s.take(b));
    }
}

/// Removes white space from both ends of `s`, as `str::trim` does.
pub fn trim_str(s: &str) -> (r: String)
    ensures
        r@ == trim_spec(s@),
{
    let n = s.unicode_len();
    let mut a: usize = 0;
    while a < n && is_space(s.get_char(a))
        invariant
            a <= n,
            n == s@.len(),
            forall|j: int| 0 <= j < a ==> is_space_char(s@[j]),
        decreases n - a,
    {
        a = a + 1;
    }
    let mut b: usize = n;
    while b > a && is_space(s.get_char(b - 1))
        invariant
            a <= b <= n,
            n == s@.len(),
            forall|j: int| b <= j < n ==> is_space_char(s@[j]),
        decreases b,
    {
        b = b - 1;
    }
    proof {
        lemma_trim_start_skip(s@, a as int);
        let t = s@.skip(a as int);
        assert(forall|j: int|
            b - a <= j < t.len() ==> t[j] == s@[j + a] && is_space_char(t[j]));
        if b > a {
            assert(t[b - a - 1] == s@[b - 1]);
        }
        lemma_trim_end_take(t, b - a);
        assert(t.take(b - a) =~= s@.subrange(a as int, b as int));
    }
    s.substring_char(a, b).to_owned()
}

/// Clones all elements of `v` but the first.
pub fn tail_of(v: &Vec<String>) -> (r: Vec<String>)
    requires
        v.len() >= 1,
    ensures
        r.deep_view() == v.deep_view().drop_first(),
{
    let mut r: Vec<String> = Vec::new();
    let mut i: usize = 1;
    while i < v.len()
        invariant
            1 <= i <= v.len(),
            r.deep_view() =~= v.deep_view().subrange(1, i as int),
        decreases v.len() - i,
    {
        let ghost old_r = r.deep_view();
        let piece = v[i].clone();
        r.push(piece);
        proof {
            assert(r.deep_view() =~~= old_r + seq![piece@]);
            assert(r.deep_view() =~~= v.deep_view().subrange(1, i + 1));
        }
        i = i + 1;
    }
    proof {
        assert(v.deep_view().subrange(1, v.len() as int) =~= v.deep_view().drop_first());
    }
    r
}

/// The tokens of one line: the pieces between single spaces, each trimmed.
/// Consecutive spaces yield empty tokens, which still count toward
/// positional token counts.
pub open spec fn tokens_of(line: Seq<char>) -> Seq<Seq<char>> {
    split_on(line, ' ').map_values(|t: Seq<char>| trim_spec(t))
}

/// Splits `line` on single spaces and trims each token.
pub fn tokenize(line: &str) -> (r: Vec<String>)
    ensures
        r.deep_view() == tokens_of(line@),
        r.len() >= 1,
{
    let pieces = split_str(line, ' ');
    let mut r: Vec<String> = Vec::new();
    let mut i: usize = 0;
    while i < pieces.len()
        invariant
            i <= pieces.len(),
            pieces.deep_view() == split_on(line@, ' '),
            r.deep_view() =~= pieces.deep_view().take(i as int).map_values(
                |t: Seq<char>| trim_spec(t),
            ),
        decreases pieces.len() - i,
    {
        let ghost old_r = r.deep_view();
        let t = trim_str(pieces[i].as_str());
        r.push(t);
        proof {
            assert(r.deep_view() =~~= old_r + seq![t@]);
            assert(r.deep_view() =~~= pieces.deep_view().take(i + 1).map_values(
                |t: Seq<char>| trim_spec(t),
            ));
        }
        i = i + 1;
    }
    proof {
        assert(pieces.deep_view().take(pieces.len() as int) =~= pieces.deep_view());
        assert(r.deep_view() =~~= tokens_of(line@));
    }
    r
}

} // verus!
