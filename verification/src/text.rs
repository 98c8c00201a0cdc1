//! Verified helpers on character strings: prefix stripping and separator
//! splitting, as the error channel and variable handling need them.

use vstd::prelude::*;
use vstd::string::StrSliceExecFns;
use vstd::string::StringExecFns;

verus! {

/// Whether `s` starts with `prefix`.
pub open spec fn has_prefix(s: Seq<char>, prefix: Seq<char>) -> bool {
    s.len() >= prefix.len() && s.take(prefix.len() as int) == prefix
}

/// `s` with a leading `prefix` removed, or `s` itself if it does not start
/// with `prefix`.
pub open spec fn strip_prefix_spec(s: Seq<char>, prefix: Seq<char>) -> Seq<char> {
    if has_prefix(s, prefix) {
        s.skip(prefix.len() as int)
    } else {
        s
    }
}

/// Remove a leading `prefix` from `s` if present.
pub fn strip_prefix(s: &String, prefix: &String) -> (r: Option<String>)
    ensures
        match r {
            Some(t) => has_prefix(s@, prefix@) && t@ == s@.skip(prefix@.len() as int),
            None => !has_prefix(s@, prefix@),
        },
{
    let sl: &str = s.as_str();
    let pl: &str = prefix.as_str();
    let m = sl.unicode_len();
    let n = pl.unicode_len();
    if m < n {
        return None;
    }
    for i in 0..n
        invariant
            m == s@.len(),
            n == prefix@.len(),
            n <= m,
            sl@ == s@,
            pl@ == prefix@,
            forall|j: int| 0 <= j < i ==> s@[j] == prefix@[j],
    {
        if sl.get_char(i) != pl.get_char(i) {
            proof {
                assert(s@.take(n as int)[i as int] != prefix@[i as int]);
            }
            return None;
        }
    }
    proof {
        assert(s@.take(n as int) =~= prefix@);
    }
    let rest = sl.substring_char(n, m);
    proof {
        assert(rest@ =~= s@.skip(n as int));
    }
    Some(rest.to_owned())
}

/// The fields of `s` joined with the separator `sep` between them.
pub open spec fn joined_with(s: Seq<Seq<char>>, sep: Seq<char>) -> Seq<char>
    decreases s.len(),
{
    if s.len() == 0 {
        Seq::empty()
    } else if s.len() == 1 {
        s[0]
    } else {
        joined_with(s.drop_last(), sep) + sep + s.last()
    }
}

/// The fields of `s` joined with `", "` between them.
pub open spec fn joined(s: Seq<Seq<char>>) -> Seq<char> {
    joined_with(s, ", "@)
}

/// Join the strings of `v` with the separator `sep` between them.
pub fn join_with(v: &Vec<String>, sep: &str) -> (r: String)
    ensures
        r@ == joined_with(v.deep_view(), sep@),
{
    let mut r = String::new();
    let n = v.len();
    for i in 0..n
        invariant
            n == v.len(),
            r@ == joined_with(v.deep_view().take(i as int), sep@),
    {
        if i > 0 {
            r.append(sep);
        }
        r.append(v[i].as_str());
        proof {
            assert(v.deep_view().take(i + 1).drop_last() =~= v.deep_view().take(i as int));
            assert(v.deep_view().take(i + 1).last() == v.deep_view()[i as int]);
            if i == 0 {
                assert(r@ =~= joined_with(v.deep_view().take(1), sep@));
            }
        }
    }
    proof {
        assert(v.deep_view().take(n as int) =~= v.deep_view());
    }
    r
}

/// Join the strings of `v` with `", "` between them.
pub fn join_comma(v: &Vec<String>) -> (r: String)
    ensures
        r@ == joined(v.deep_view()),
{
    join_with(v, ", ")
}

/// Whether two strings hold the same characters.
pub fn str_eq(a: &str, b: &str) -> (r: bool)
    ensures
        r == (a@ == b@),
{
    let n = a.unicode_len();
    let m = b.unicode_len();
    if n != m {
        return false;
    }
    for i in 0..n
        invariant
            n == a@.len(),
            n == b@.len(),
            forall|j: int| 0 <= j < i ==> a@[j] == b@[j],
    {
        if a.get_char(i) != b.get_char(i) {
            return false;
        }
    }
    proof {
        assert(a@ =~= b@);
    }
    true
}

/// The index of the first occurrence of `c` in `s`, or the length of `s`
/// when `c` does not occur.
pub open spec fn find_char(s: Seq<char>, c: char) -> int
    decreases s.len(),
{
    if s.len() == 0 {
        0
    } else if s[0] == c {
        0
    } else {
        1 + find_char(s.drop_first(), c)
    }
}

/// A first occurrence at index `i` is what `find_char` returns.
pub proof fn lemma_find_char_at(s: Seq<char>, c: char, i: int)
    requires
        0 <= i < s.len(),
        s[i] == c,
        forall|j: int| 0 <= j < i ==> s[j] != c,
    ensures
        find_char(s, c) == i,
    decreases i,
{
    if i > 0 {
        assert forall|j: int| 0 <= j < i - 1 implies s.drop_first()[j] != c by {
            assert(s.drop_first()[j] == s[j + 1]);
        }
        assert(s.drop_first()[i - 1] == s[i]);
        lemma_find_char_at(s.drop_first(), c, i - 1);
    }
}

/// Without an occurrence anywhere, `find_char` runs off the end.
pub proof fn lemma_find_char_none(s: Seq<char>, c: char)
    requires
        forall|j: int| 0 <= j < s.len() ==> s[j] != c,
    ensures
        find_char(s, c) == s.len(),
    decreases s.len(),
{
    if s.len() > 0 {
        assert forall|j: int| 0 <= j < s.drop_first().len() implies s.drop_first()[j] != c by {
            assert(s.drop_first()[j] == s[j + 1]);
        }
        lemma_find_char_none(s.drop_first(), c);
    }
}

/// The index of the first occurrence of `c` in `s`, or the length of `s`
/// when `c` does not occur.
pub fn find_char_index(s: &str, c: char) -> (r: usize)
    ensures
        r as int == find_char(s@, c),
        r <= s@.len(),
        r < s@.len() ==> s@[r as int] == c,
{
    let m = s.unicode_len();
    for i in 0..m
        invariant
            m == s@.len(),
            forall|j: int| 0 <= j < i ==> s@[j] != c,
    {
        if s.get_char(i) == c {
            proof {
                lemma_find_char_at(s@, c, i as int);
            }
            return i;
        }
    }
    proof {
        lemma_find_char_none(s@, c);
    }
    m
}

/// `s` split on the separator `c`, empty fields kept: the split of a
/// separator-free string is that one field.
pub open spec fn split_on(s: Seq<char>, c: char) -> Seq<Seq<char>>
    decreases s.len(),
{
    let i = find_char(s, c);
    if 0 <= i && i < s.len() {
        seq![s.take(i)] + split_on(s.skip(i + 1), c)
    } else {
        seq![s]
    }
}

/// Split `s` on the separator `c`, keeping empty fields.
pub fn split_str(s: &str, c: char) -> (r: Vec<String>)
    ensures
        r.deep_view() == split_on(s@, c),
{
    let m = s.unicode_len();
    let mut r: Vec<String> = Vec::new();
    let mut p: usize = 0;
    proof {
        assert(s@.skip(0) =~= s@);
        assert(r.deep_view() =~= Seq::<Seq<char>>::empty());
        assert(Seq::<Seq<char>>::empty() + split_on(s@, c) =~= split_on(s@, c));
    }
    loop
        invariant
            p <= m,
            m == s@.len(),
            split_on(s@, c) == r.deep_view() + split_on(s@.skip(p as int), c),
            p > 0 ==> s@[p - 1] == c,
        decreases m - p,
    {
        let ghost rest = s@.skip(p as int);
        let mut i: usize = p;
        while i < m && s.get_char(i) != c
            invariant
                p <= i <= m,
                m == s@.len(),
                forall|j: int| p <= j < i ==> s@[j] != c,
            decreases m - i,
        {
            i = i + 1;
        }
        proof {
            assert forall|j: int| 0 <= j < i - p implies rest[j] != c by {
                assert(rest[j] == s@[p + j]);
            }
            if i < m {
                assert(rest[i - p] == s@[i as int]);
                lemma_find_char_at(rest, c, i - p);
            } else {
                lemma_find_char_none(rest, c);
            }
        }
        let ghost pre = r.deep_view();
        let word = s.substring_char(p, i).to_owned();
        r.push(word);
        proof {
            assert(r.deep_view() =~= pre.push(s@.subrange(p as int, i as int)));
        }
        if i < m {
            proof {
                assert(rest.take(i - p) =~= s@.subrange(p as int, i as int));
                assert(rest.skip(i - p + 1) =~= s@.skip(i + 1));
                assert(split_on(rest, c) == seq![rest.take(i - p)] + split_on(rest.skip(i - p + 1), c));
                assert(pre + split_on(rest, c) =~= r.deep_view() + split_on(s@.skip(i + 1), c));
            }
            p = i + 1;
        } else {
            proof {
                assert(find_char(rest, c) == rest.len());
                assert(split_on(rest, c) == seq![rest]);
                assert(rest.take(i - p) =~= s@.subrange(p as int, i as int));
                assert(rest =~= s@.subrange(p as int, i as int));
                assert(pre + split_on(rest, c) =~= r.deep_view());
                assert(split_on(s@, c) =~= r.deep_view());
            }
            return r;
        }
    }
}

/// The fields of `ws` that are not empty.
pub open spec fn nonempty_fields(ws: Seq<Seq<char>>) -> Seq<Seq<char>>
    decreases ws.len(),
{
    if ws.len() == 0 {
        Seq::empty()
    } else {
        let prev = nonempty_fields(ws.drop_last());
        if ws.last().len() > 0 {
            prev.push(ws.last())
        } else {
            prev
        }
    }
}

/// Keep only the nonempty strings of `v`.
pub fn filter_nonempty(v: &Vec<String>) -> (r: Vec<String>)
    ensures
        r.deep_view() == nonempty_fields(v.deep_view()),
{
    let mut r: Vec<String> = Vec::new();
    let n = v.len();
    for i in 0..n
        invariant
            n == v.len(),
            r.deep_view() == nonempty_fields(v.deep_view().take(i as int)),
    {
        proof {
            assert(v.deep_view().take(i + 1).drop_last() =~= v.deep_view().take(i as int));
            assert(v.deep_view().take(i + 1).last() == v.deep_view()[i as int]);
        }
        if v[i].as_str().unicode_len() > 0 {
            let ghost pre = r.deep_view();
            r.push(v[i].clone());
            proof {
                assert(r.deep_view() =~= pre.push(v.deep_view()[i as int]));
            }
        }
    }
    proof {
        assert(v.deep_view().take(n as int) =~= v.deep_view());
    }
    r
}

/// The decimal digit characters, in order.
pub open spec fn dec_digit(d: int) -> char {
    seq!['0', '1', '2', '3', '4', '5', '6', '7', '8', '9'][d]
}

/// The canonical decimal numeral of a nonnegative number: digits only, no
/// leading zero.
pub open spec fn dec_str(n: int) -> Seq<char>
    decreases n,
{
    if n < 10 {
        seq![dec_digit(n)]
    } else {
        dec_str(n / 10).push(dec_digit(n % 10))
    }
}

/// The digit characters of the digit-table literal, position by position.
proof fn lemma_dec_digit_lit()
    ensures
        ("0123456789"@).len() == 10,
        forall|i: int| 0 <= i < 10 ==> ("0123456789"@)[i] == dec_digit(i),
{
    reveal_strlit("0123456789");
    assert(("0123456789"@).len() == 10);
        assert(("0123456789"@)[0] == '0');
        assert(("0123456789"@)[1] == '1');
        assert(("0123456789"@)[2] == '2');
        assert(("0123456789"@)[3] == '3');
        assert(("0123456789"@)[4] == '4');
        assert(("0123456789"@)[5] == '5');
        assert(("0123456789"@)[6] == '6');
        assert(("0123456789"@)[7] == '7');
        assert(("0123456789"@)[8] == '8');
        assert(("0123456789"@)[9] == '9');
        assert(dec_digit(0) == '0');
        assert(dec_digit(1) == '1');
        assert(dec_digit(2) == '2');
        assert(dec_digit(3) == '3');
        assert(dec_digit(4) == '4');
        assert(dec_digit(5) == '5');
        assert(dec_digit(6) == '6');
        assert(dec_digit(7) == '7');
        assert(dec_digit(8) == '8');
        assert(dec_digit(9) == '9');
}

/// Render `n` as its decimal numeral.
pub fn u64_to_string(n: u64) -> (r: String)
    ensures
        r@ == dec_str(n as int),
    decreases n,
{
    let digits = "0123456789";
    proof {
        lemma_dec_digit_lit();
    }
    if n < 10 {
        let i = n as usize;
        let r = digits.substring_char(i, i + 1).to_owned();
        proof {
            assert(i as int == n as int);
            assert(("0123456789"@)[i as int] == dec_digit(i as int));
            assert(r@ =~= seq![dec_digit(n as int)]);
        }
        r
    } else {
        let mut s = u64_to_string(n / 10);
        let i = (n % 10) as usize;
        s.append(digits.substring_char(i, i + 1));
        proof {
            assert(i as int == n as int % 10);
            assert(("0123456789"@)[i as int] == dec_digit(i as int));
            assert(digits@.subrange(i as int, i + 1) =~= seq![dec_digit(n as int % 10)]);
            assert(s@ =~= dec_str((n / 10) as int).push(dec_digit(n as int % 10)));
        }
        s
    }
}

} // verus!