//! Package version strings: parsing and ordering, as the version builtins
//! need them.  A version is dotted numeric components, an optional single
//! trailing letter, underscore-separated suffix fields (`alpha`, `beta`,
//! `pre`, `rc`, `p`, each with an optional number), and an optional
//! `-r<digits>` revision.  Components compare numerically — a version with
//! more components is the greater one when the shared prefix ties — then
//! the letter, the suffix chain and the revision break ties in turn.

use vstd::prelude::*;
use vstd::string::StrSliceExecFns;

use crate::text::find_char;
use crate::text::has_prefix;
use crate::text::strip_prefix;
use crate::text::split_on;
use crate::text::split_str;

verus! {

/// Whether `c` is a decimal digit.
pub open spec fn is_digit(c: char) -> bool {
    '0' <= c && c <= '9'
}

/// The value of a decimal digit.
pub open spec fn digit_val(c: char) -> int {
    c as int - '0' as int
}

/// The number a digit string denotes.
pub open spec fn digits_val(s: Seq<char>) -> int
    decreases s.len(),
{
    if s.len() == 0 {
        0
    } else {
        digits_val(s.drop_last()) * 10 + digit_val(s.last())
    }
}

/// Whether `s` is a nonempty string of digits.
pub open spec fn all_digits(s: Seq<char>) -> bool {
    s.len() > 0 && forall|i: int| 0 <= i < s.len() ==> is_digit(#[trigger] s[i])
}

/// A digit string's value never shrinks as the string grows.
pub proof fn lemma_digits_val_prefix(s: Seq<char>, i: int)
    requires
        0 <= i <= s.len(),
        forall|j: int| 0 <= j < s.len() ==> is_digit(#[trigger] s[j]),
    ensures
        digits_val(s) >= digits_val(s.take(i)),
        digits_val(s.take(i)) >= 0,
    decreases s.len() - i,
{
    if i == s.len() {
        assert(s.take(i) =~= s);
        lemma_digits_val_nonneg(s);
    } else {
        lemma_digits_val_prefix(s, i + 1);
        assert(s.take(i + 1).drop_last() =~= s.take(i));
        assert(s.take(i + 1).last() == s[i]);
        lemma_digits_val_nonneg(s.take(i));
        assert(digits_val(s.take(i + 1)) == digits_val(s.take(i)) * 10 + digit_val(s[i]));
        assert(is_digit(s[i]));
        assert(digit_val(s[i]) >= 0);
        assert(digits_val(s.take(i)) * 10 >= digits_val(s.take(i))) by (nonlinear_arith)
            requires
                digits_val(s.take(i)) >= 0,
        ;
    }
}

/// A digit string's value is never negative.
pub proof fn lemma_digits_val_nonneg(s: Seq<char>)
    requires
        forall|j: int| 0 <= j < s.len() ==> is_digit(#[trigger] s[j]),
    ensures
        digits_val(s) >= 0,
    decreases s.len(),
{
    if s.len() > 0 {
        assert forall|j: int| 0 <= j < s.drop_last().len() implies is_digit(
            #[trigger] s.drop_last()[j],
        ) by {
            assert(s.drop_last()[j] == s[j]);
        }
        lemma_digits_val_nonneg(s.drop_last());
        assert(is_digit(s[s.len() - 1]));
        assert(digit_val(s.last()) >= 0);
        assert(digits_val(s.drop_last()) * 10 >= 0) by (nonlinear_arith)
            requires
                digits_val(s.drop_last()) >= 0,
        ;
    }
}

/// Parse a digit string into a number; fails on a non-digit, an empty
/// string, or a value that does not fit.
pub fn parse_u64(s: &str) -> (r: Option<u64>)
    ensures
        match r {
            Some(v) => all_digits(s@) && digits_val(s@) == v,
            None => !(all_digits(s@) && digits_val(s@) <= u64::MAX),
        },
{
    let n = s.unicode_len();
    if n == 0 {
        return None;
    }
    let mut acc: u64 = 0;
    for i in 0..n
        invariant
            n == s@.len(),
            n > 0,
            forall|j: int| 0 <= j < i ==> is_digit(#[trigger] s@[j]),
            acc == digits_val(s@.take(i as int)),
    {
        let c = s.get_char(i);
        if !(c >= '0' && c <= '9') {
            return None;
        }
        let d: u64 = (c as u32 - '0' as u32) as u64;
        proof {
            assert(d == digit_val(s@[i as int]));
        }
        if acc > (u64::MAX - d) / 10 {
            proof {
                assert(s@.take(i + 1).drop_last() =~= s@.take(i as int));
                assert(s@.take(i + 1).last() == s@[i as int]);
                assert(digits_val(s@.take(i + 1)) == acc * 10 + d);
                assert(acc * 10 + d > u64::MAX) by (nonlinear_arith)
                    requires
                        acc > (u64::MAX - d) / 10,
                        d <= 9,
                ;
                if all_digits(s@) {
                    lemma_digits_val_prefix(s@, i + 1);
                    assert(digits_val(s@) > u64::MAX);
                }
            }
            return None;
        }
        proof {
            assert(acc * 10 + d <= u64::MAX) by (nonlinear_arith)
                requires
                    acc <= (u64::MAX - d) / 10,
                    d <= 9,
            ;
            assert(s@.take(i + 1).drop_last() =~= s@.take(i as int));
            assert(s@.take(i + 1).last() == s@[i as int]);
        }
        acc = acc * 10 + d;
    }
    proof {
        assert(s@.take(n as int) =~= s@);
    }
    Some(acc)
}

/// Whether `c` is a lowercase letter, as a version's letter tag must be.
pub open spec fn is_lower(c: char) -> bool {
    'a' <= c && c <= 'z'
}

/// The suffix tags a version may carry, named in their significance order:
/// the first four mark a version as earlier than its bare base, the last
/// as later.
#[derive(Debug, Clone, Copy, PartialEq, Eq, Structural)]
pub enum Suffix {
    Alpha,
    Beta,
    Pre,
    Rc,
    P,
}

/// One suffix of a version: its tag and its number, zero when none was
/// written.
#[derive(Debug, Clone, Copy, PartialEq, Eq, Structural)]
pub struct SuffixPart {
    pub kind: Suffix,
    pub num: u64,
}

/// The significance order of the suffix tags among themselves.
pub open spec fn suffix_rank(k: Suffix) -> int {
    match k {
        Suffix::Alpha => 0,
        Suffix::Beta => 1,
        Suffix::Pre => 2,
        Suffix::Rc => 3,
        Suffix::P => 4,
    }
}

impl Suffix {
    /// The significance order of the suffix tags among themselves.
    pub fn rank(&self) -> (r: u32)
        ensures
            r as int == suffix_rank(*self),
    {
        match self {
            Suffix::Alpha => 0,
            Suffix::Beta => 1,
            Suffix::Pre => 2,
            Suffix::Rc => 3,
            Suffix::P => 4,
        }
    }
}

/// The number behind a suffix tag: absent counts as zero.
pub open spec fn suffix_tail(k: Suffix, rest: Seq<char>) -> Option<SuffixPart> {
    if rest.len() == 0 {
        Some(SuffixPart { kind: k, num: 0 })
    } else if all_digits(rest) && digits_val(rest) <= u64::MAX {
        Some(SuffixPart { kind: k, num: digits_val(rest) as u64 })
    } else {
        None
    }
}

/// What one underscore-separated suffix field denotes: a known tag followed
/// by an optional bounded number.
pub open spec fn suffix_spec(f: Seq<char>) -> Option<SuffixPart> {
    if has_prefix(f, "alpha"@) {
        suffix_tail(Suffix::Alpha, f.skip("alpha"@.len() as int))
    } else if has_prefix(f, "beta"@) {
        suffix_tail(Suffix::Beta, f.skip("beta"@.len() as int))
    } else if has_prefix(f, "pre"@) {
        suffix_tail(Suffix::Pre, f.skip("pre"@.len() as int))
    } else if has_prefix(f, "rc"@) {
        suffix_tail(Suffix::Rc, f.skip("rc"@.len() as int))
    } else if has_prefix(f, "p"@) {
        suffix_tail(Suffix::P, f.skip("p"@.len() as int))
    } else {
        None
    }
}

/// A parsed version: numeric components, an optional trailing letter, the
/// suffix chain, and the revision.
pub struct Version {
    pub parts: Vec<u64>,
    pub letter: Option<char>,
    pub suffixes: Vec<SuffixPart>,
    pub revision: u64,
}

/// The mathematical shape of a [`Version`].
#[verifier::ext_equal]
pub struct VersionV {
    pub parts: Seq<u64>,
    pub letter: Option<char>,
    pub suffixes: Seq<SuffixPart>,
    pub revision: u64,
}

impl View for Version {
    type V = VersionV;

    open spec fn view(&self) -> VersionV {
        VersionV {
            parts: self.parts@,
            letter: self.letter,
            suffixes: self.suffixes@,
            revision: self.revision,
        }
    }
}

/// Whether every dotted component of `core` is a bounded digit string.
pub open spec fn valid_core(core: Seq<char>) -> bool {
    forall|i: int|
        0 <= i < split_on(core, '.').len() ==> {
            &&& all_digits(#[trigger] split_on(core, '.')[i])
            &&& digits_val(split_on(core, '.')[i]) <= u64::MAX
        }
}

/// The numeric components of a valid version core.
pub open spec fn core_parts(core: Seq<char>) -> Seq<u64> {
    Seq::new(split_on(core, '.').len(), |i: int| digits_val(split_on(core, '.')[i]) as u64)
}

/// What the part of a version before any revision denotes: dotted digit
/// components, an optional single trailing letter, and underscore-separated
/// suffix fields.
pub open spec fn base_version(core: Seq<char>, revision: u64) -> Option<VersionV> {
    let us = split_on(core, '_');
    let head = us[0];
    let tagged = head.len() > 0 && is_lower(head.last());
    let nums = if tagged {
        head.drop_last()
    } else {
        head
    };
    if valid_core(nums) && (forall|i: int|
        1 <= i < us.len() ==> suffix_spec(#[trigger] us[i]) is Some) {
        Some(
            VersionV {
                parts: core_parts(nums),
                letter: if tagged {
                    Some(head.last())
                } else {
                    None
                },
                suffixes: Seq::new((us.len() - 1) as nat, |i: int| suffix_spec(us[i + 1]).unwrap()),
                revision,
            },
        )
    } else {
        None
    }
}

/// What a version string denotes, if it is well formed: a dash splits off
/// the `r<digits>` revision, and the rest is the version's base.
pub open spec fn version_spec(s: Seq<char>) -> Option<VersionV> {
    let dash = find_char(s, '-');
    if 0 <= dash && dash < s.len() {
        let rev = s.skip(dash + 1);
        if rev.len() >= 2 && rev[0] == 'r' && all_digits(rev.skip(1)) && digits_val(rev.skip(1))
            <= u64::MAX && find_char(rev, '-') == rev.len() {
            base_version(s.take(dash), digits_val(rev.skip(1)) as u64)
        } else {
            None
        }
    } else {
        base_version(s, 0)
    }
}

/// Parse the dotted core of a version into its numeric components.
fn parse_core(core: &str) -> (r: Option<Vec<u64>>)
    ensures
        match r {
            Some(parts) => valid_core(core@) && parts@ == core_parts(core@),
            None => !valid_core(core@),
        },
{
    let fields = split_str(core, '.');
    let mut parts: Vec<u64> = Vec::new();
    let n = fields.len();
    proof {
        assert(fields.deep_view().len() == n);
    }
    for i in 0..n
        invariant
            n == fields.len(),
            fields.deep_view() == split_on(core@, '.'),
            parts@.len() == i,
            forall|j: int|
                0 <= j < i ==> {
                    &&& all_digits(#[trigger] split_on(core@, '.')[j])
                    &&& digits_val(split_on(core@, '.')[j]) <= u64::MAX
                    &&& parts@[j] == digits_val(split_on(core@, '.')[j])
                },
    {
        proof {
            assert(fields.deep_view()[i as int] == fields[i as int]@);
        }
        match parse_u64(fields[i].as_str()) {
            Some(v) => {
                parts.push(v);
            },
            None => {
                return None;
            },
        }
    }
    proof {
        assert(parts@ =~= core_parts(core@));
    }
    Some(parts)
}

/// Parse one underscore-separated suffix field.
fn parse_suffix(f: &String) -> (r: Option<SuffixPart>)
    ensures
        r == suffix_spec(f@),
{
    match strip_prefix(f, &"alpha".to_owned()) {
        Some(rest) => {
            return parse_suffix_tail(Suffix::Alpha, &rest);
        },
        None => {},
    }
    match strip_prefix(f, &"beta".to_owned()) {
        Some(rest) => {
            return parse_suffix_tail(Suffix::Beta, &rest);
        },
        None => {},
    }
    match strip_prefix(f, &"pre".to_owned()) {
        Some(rest) => {
            return parse_suffix_tail(Suffix::Pre, &rest);
        },
        None => {},
    }
    match strip_prefix(f, &"rc".to_owned()) {
        Some(rest) => {
            return parse_suffix_tail(Suffix::Rc, &rest);
        },
        None => {},
    }
    match strip_prefix(f, &"p".to_owned()) {
        Some(rest) => {
            return parse_suffix_tail(Suffix::P, &rest);
        },
        None => {},
    }
    None
}

/// Parse the optional number behind a suffix tag.
fn parse_suffix_tail(k: Suffix, rest: &String) -> (r: Option<SuffixPart>)
    ensures
        r == suffix_tail(k, rest@),
{
    if rest.as_str().unicode_len() == 0 {
        Some(SuffixPart { kind: k, num: 0 })
    } else {
        match parse_u64(rest.as_str()) {
            Some(v) => Some(SuffixPart { kind: k, num: v }),
            None => None,
        }
    }
}

/// Parse the part of a version before any revision.
fn parse_base(core: &str, revision: u64) -> (r: Option<Version>)
    ensures
        match r {
            Some(v) => base_version(core@, revision) == Some(v@),
            None => base_version(core@, revision) is None,
        },
{
    let fields = split_str(core, '_');
    proof {
        assert(split_on(core@, '_').len() >= 1);
    }
    let head: &String = &fields[0];
    proof {
        assert(fields.deep_view()[0] == head@);
    }
    let hn = head.as_str().unicode_len();
    let mut letter: Option<char> = None;
    let mut nums: String = head.clone();
    if hn > 0 {
        let c = head.as_str().get_char(hn - 1);
        if c >= 'a' && c <= 'z' {
            letter = Some(c);
            nums = head.as_str().substring_char(0, hn - 1).to_owned();
            proof {
                assert(nums@ =~= head@.drop_last());
            }
        }
    }
    let parts = match parse_core(nums.as_str()) {
        Some(p) => p,
        None => {
            return None;
        },
    };
    let mut suffixes: Vec<SuffixPart> = Vec::new();
    let nf = fields.len();
    for i in 1..nf
        invariant
            nf == fields.len(),
            fields.deep_view() == split_on(core@, '_'),
            suffixes@.len() == i - 1,
            forall|j: int|
                1 <= j < i ==> suffix_spec(#[trigger] split_on(core@, '_')[j]) is Some,
            forall|j: int|
                1 <= j < i ==> suffixes@[j - 1] == suffix_spec(
                    #[trigger] split_on(core@, '_')[j],
                ).unwrap(),
    {
        proof {
            assert(fields.deep_view()[i as int] == fields[i as int]@);
        }
        match parse_suffix(&fields[i]) {
            Some(sp) => {
                suffixes.push(sp);
            },
            None => {
                proof {
                    assert(suffix_spec(split_on(core@, '_')[i as int]) is None);
                }
                return None;
            },
        }
    }
    let v = Version { parts, letter, suffixes, revision };
    proof {
        let us = split_on(core@, '_');
        assert(suffixes@ =~= Seq::new((us.len() - 1) as nat, |i: int| suffix_spec(us[i + 1]).unwrap()));
        assert(base_version(core@, revision) == Some(v@));
    }
    Some(v)
}

impl Version {
    /// Parse a version string.
    pub fn parse(s: &str) -> (r: Option<Version>)
        ensures
            match r {
                Some(v) => version_spec(s@) == Some(v@),
                None => version_spec(s@) is None,
            },
    {
        let m = s.unicode_len();
        let dash = crate::text::find_char_index(s, '-');
        if dash == m {
            parse_base(s, 0)
        } else {
            let core = s.substring_char(0, dash);
            let rev = s.substring_char(dash + 1, m);
            proof {
                assert(core@ =~= s@.take(dash as int));
                assert(rev@ =~= s@.skip(dash + 1));
            }
            let rn = rev.unicode_len();
            if rn < 2 || rev.get_char(0) != 'r' {
                proof {
                    assert(version_spec(s@) is None);
                }
                return None;
            }
            // a second dash anywhere in the revision is malformed
            if crate::text::find_char_index(rev, '-') < rn {
                return None;
            }
            let digits = rev.substring_char(1, rn);
            proof {
                assert(digits@ =~= rev@.skip(1));
            }
            let revision = match parse_u64(digits) {
                Some(v) => v,
                None => {
                    return None;
                },
            };
            parse_base(core, revision)
        }
    }
}

/// Lexicographic order on numeric component lists; when the shared prefix
/// ties, the longer list is the greater one.
pub open spec fn cmp_parts(a: Seq<u64>, b: Seq<u64>) -> int
    decreases a.len(),
{
    if a.len() == 0 && b.len() == 0 {
        0
    } else if a.len() == 0 {
        -1
    } else if b.len() == 0 {
        1
    } else if a[0] < b[0] {
        -1
    } else if a[0] > b[0] {
        1
    } else {
        cmp_parts(a.drop_first(), b.drop_first())
    }
}

/// The order of the optional letters: a bare version sorts before any
/// lettered one, and letters sort by their place in the alphabet.
pub open spec fn cmp_letter(a: Option<char>, b: Option<char>) -> int {
    match (a, b) {
        (None, None) => 0,
        (None, Some(_)) => -1,
        (Some(_), None) => 1,
        (Some(x), Some(y)) => if x < y {
            -1
        } else if x > y {
            1
        } else {
            0
        },
    }
}

/// The order of two suffix chains, element by element: tags first, their
/// numbers second.  A chain that runs out sorts below a continuation that
/// begins with the `p` tag and above any other continuation.
pub open spec fn cmp_suffixes(a: Seq<SuffixPart>, b: Seq<SuffixPart>) -> int
    decreases a.len() + b.len(),
{
    if a.len() == 0 && b.len() == 0 {
        0
    } else if a.len() == 0 {
        if b[0].kind == Suffix::P {
            -1
        } else {
            1
        }
    } else if b.len() == 0 {
        if a[0].kind == Suffix::P {
            1
        } else {
            -1
        }
    } else if suffix_rank(a[0].kind) < suffix_rank(b[0].kind) {
        -1
    } else if suffix_rank(a[0].kind) > suffix_rank(b[0].kind) {
        1
    } else if a[0].num < b[0].num {
        -1
    } else if a[0].num > b[0].num {
        1
    } else {
        cmp_suffixes(a.drop_first(), b.drop_first())
    }
}

/// The order of two versions: numeric components first, then the letter,
/// then the suffix chain, then the revision; negative, zero or positive as
/// `a` is less than, equal to or greater than `b`.
pub open spec fn cmp_version(a: VersionV, b: VersionV) -> int {
    let c = cmp_parts(a.parts, b.parts);
    if c != 0 {
        c
    } else {
        let cl = cmp_letter(a.letter, b.letter);
        if cl != 0 {
            cl
        } else {
            let cs = cmp_suffixes(a.suffixes, b.suffixes);
            if cs != 0 {
                cs
            } else if a.revision < b.revision {
                -1
            } else if a.revision > b.revision {
                1
            } else {
                0
            }
        }
    }
}

/// Compare two parsed versions.
#[verifier::loop_isolation(false)]
pub fn compare(a: &Version, b: &Version) -> (r: i32)
    ensures
        r as int == cmp_version(a@, b@),
        -1 <= r <= 1,
{
    let n = a.parts.len();
    let m = b.parts.len();
    let mut i: usize = 0;
    proof {
        assert(a.parts@.skip(0) =~= a.parts@);
        assert(b.parts@.skip(0) =~= b.parts@);
    }
    while i < n && i < m
        invariant
            n == a.parts.len(),
            m == b.parts.len(),
            i <= n,
            i <= m,
            cmp_parts(a.parts@, b.parts@) == cmp_parts(
                a.parts@.skip(i as int),
                b.parts@.skip(i as int),
            ),
        decreases n - i,
    {
        let x = a.parts[i];
        let y = b.parts[i];
        proof {
            assert(a.parts@.skip(i as int)[0] == a.parts@[i as int]);
            assert(b.parts@.skip(i as int)[0] == b.parts@[i as int]);
            assert(a.parts@.skip(i as int).drop_first() =~= a.parts@.skip(i + 1));
            assert(b.parts@.skip(i as int).drop_first() =~= b.parts@.skip(i + 1));
        }
        if x < y {
            return -1;
        }
        if x > y {
            return 1;
        }
        i = i + 1;
    }
    proof {
        assert(a.parts@.skip(i as int).len() == n - i);
        assert(b.parts@.skip(i as int).len() == m - i);
    }
    if n < m {
        return -1;
    }
    if n > m {
        return 1;
    }
    match (a.letter, b.letter) {
        (None, Some(_)) => {
            return -1;
        },
        (Some(_), None) => {
            return 1;
        },
        (Some(x), Some(y)) => {
            if x < y {
                return -1;
            }
            if x > y {
                return 1;
            }
        },
        (None, None) => {},
    }
    let sa = a.suffixes.len();
    let sb = b.suffixes.len();
    let mut j: usize = 0;
    proof {
        assert(a.suffixes@.skip(0) =~= a.suffixes@);
        assert(b.suffixes@.skip(0) =~= b.suffixes@);
    }
    while j < sa && j < sb
        invariant
            sa == a.suffixes.len(),
            sb == b.suffixes.len(),
            j <= sa,
            j <= sb,
            cmp_suffixes(a.suffixes@, b.suffixes@) == cmp_suffixes(
                a.suffixes@.skip(j as int),
                b.suffixes@.skip(j as int),
            ),
        decreases sa - j,
    {
        let x = a.suffixes[j];
        let y = b.suffixes[j];
        proof {
            assert(a.suffixes@.skip(j as int)[0] == a.suffixes@[j as int]);
            assert(b.suffixes@.skip(j as int)[0] == b.suffixes@[j as int]);
            assert(a.suffixes@.skip(j as int).drop_first() =~= a.suffixes@.skip(j + 1));
            assert(b.suffixes@.skip(j as int).drop_first() =~= b.suffixes@.skip(j + 1));
        }
        let rx = x.kind.rank();
        let ry = y.kind.rank();
        if rx < ry {
            return -1;
        }
        if rx > ry {
            return 1;
        }
        if x.num < y.num {
            return -1;
        }
        if x.num > y.num {
            return 1;
        }
        j = j + 1;
    }
    proof {
        assert(a.suffixes@.skip(j as int).len() == sa - j);
        assert(b.suffixes@.skip(j as int).len() == sb - j);
    }
    if j < sa {
        let ghost rest = a.suffixes@.skip(j as int);
        proof {
            assert(rest[0] == a.suffixes@[j as int]);
        }
        if a.suffixes[j].kind == Suffix::P {
            return 1;
        } else {
            return -1;
        }
    }
    if j < sb {
        let ghost rest = b.suffixes@.skip(j as int);
        proof {
            assert(rest[0] == b.suffixes@[j as int]);
        }
        if b.suffixes[j].kind == Suffix::P {
            return -1;
        } else {
            return 1;
        }
    }
    if a.revision < b.revision {
        -1
    } else if a.revision > b.revision {
        1
    } else {
        0
    }
}

/// Whether `c` belongs to a separator run of a version string: anything
/// that is not a letter or a digit.
pub open spec fn is_sep(c: char) -> bool {
    !(('0' <= c && c <= '9') || ('a' <= c && c <= 'z') || ('A' <= c && c <= 'Z'))
}

/// The length of the maximal prefix of `s` whose characters are all of the
/// `sep` class.
pub open spec fn run_end(s: Seq<char>, sep: bool) -> int
    decreases s.len(),
{
    if s.len() == 0 {
        0
    } else if is_sep(s[0]) == sep {
        1 + run_end(s.drop_first(), sep)
    } else {
        0
    }
}

/// A maximal run reaching exactly index `k` is what `run_end` returns.
pub proof fn lemma_run_end_at(s: Seq<char>, sep: bool, k: int)
    requires
        0 <= k <= s.len(),
        forall|j: int| 0 <= j < k ==> is_sep(#[trigger] s[j]) == sep,
        k < s.len() ==> is_sep(s[k]) != sep,
    ensures
        run_end(s, sep) == k,
    decreases k,
{
    if k == 0 {
    } else {
        assert(is_sep(s[0]) == sep);
        assert forall|j: int| 0 <= j < k - 1 implies is_sep(#[trigger] s.drop_first()[j])
            == sep by {
            assert(s.drop_first()[j] == s[j + 1]);
        }
        if k - 1 < s.drop_first().len() {
            assert(s.drop_first()[k - 1] == s[k]);
        }
        lemma_run_end_at(s.drop_first(), sep, k - 1);
    }
}

/// The alternating runs of `s`, starting with a run of the `sep` class.
pub open spec fn version_runs(s: Seq<char>, sep: bool) -> Seq<Seq<char>>
    decreases s.len(),
{
    if s.len() == 0 {
        Seq::empty()
    } else {
        let k = run_end(s, sep);
        if 1 <= k && k <= s.len() {
            seq![s.take(k)] + version_runs(s.skip(k), !sep)
        } else {
            seq![s]
        }
    }
}

/// A version string split into its separator and component runs: the run at
/// index zero is the (possibly empty) leading separator, components stand
/// at the odd indices and the separators between them at the even ones.
pub open spec fn version_split_spec(s: Seq<char>) -> Seq<Seq<char>> {
    seq![s.take(run_end(s, true))] + version_runs(s.skip(run_end(s, true)), false)
}

/// Whether `c` belongs to a separator run.
fn is_sep_exec(c: char) -> (r: bool)
    ensures
        r == is_sep(c),
{
    !((c >= '0' && c <= '9') || (c >= 'a' && c <= 'z') || (c >= 'A' && c <= 'Z'))
}

/// The end of the maximal run of the `sep` class starting at `p`.
fn scan_run(s: &str, p: usize, sep: bool) -> (r: usize)
    requires
        p <= s@.len(),
    ensures
        p <= r <= s@.len(),
        r - p == run_end(s@.skip(p as int), sep),
        r < s@.len() ==> is_sep(s@[r as int]) != sep,
        p < s@.len() && is_sep(s@[p as int]) == sep ==> r > p,
{
    let m = s.unicode_len();
    let mut i = p;
    while i < m && is_sep_exec(s.get_char(i)) == sep
        invariant
            p <= i <= m,
            m == s@.len(),
            forall|j: int| p <= j < i ==> is_sep(#[trigger] s@[j]) == sep,
        decreases m - i,
    {
        i = i + 1;
    }
    proof {
        let rest = s@.skip(p as int);
        assert forall|j: int| 0 <= j < i - p implies is_sep(#[trigger] rest[j]) == sep by {
            assert(rest[j] == s@[p + j]);
        }
        if i < m {
            assert(rest[i - p] == s@[i as int]);
        }
        lemma_run_end_at(rest, sep, i - p);
    }
    i
}

/// Split a version string into its separator and component runs.  The
/// string need not be a well-formed version; any text splits.
#[verifier::loop_isolation(false)]
pub fn version_split(s: &str) -> (r: Vec<String>)
    ensures
        r.deep_view() == version_split_spec(s@),
{
    let m = s.unicode_len();
    let mut r: Vec<String> = Vec::new();
    let first = scan_run(s, 0, true);
    let lead = s.substring_char(0, first).to_owned();
    proof {
        assert(s@.skip(0) =~= s@);
        assert(lead@ =~= s@.take(run_end(s@, true)));
    }
    r.push(lead);
    let mut p = first;
    let mut sep = false;
    proof {
        assert(r.deep_view() =~= seq![s@.take(run_end(s@, true))]);
        assert(version_split_spec(s@) =~= r.deep_view() + version_runs(s@.skip(p as int), false));
    }
    while p < m
        invariant
            p <= m,
            m == s@.len(),
            version_split_spec(s@) == r.deep_view() + version_runs(s@.skip(p as int), sep),
            p < m ==> is_sep(s@[p as int]) == sep,
        decreases m - p,
    {
        let q = scan_run(s, p, sep);
        proof {
            assert(run_end(s@.skip(p as int), sep) == q - p);
            assert(q > p);
        }
        let word = s.substring_char(p, q).to_owned();
        let ghost pre = r.deep_view();
        r.push(word);
        proof {
            let rest = s@.skip(p as int);
            assert(r.deep_view() =~= pre.push(s@.subrange(p as int, q as int)));
            assert(rest.take(q - p) =~= s@.subrange(p as int, q as int));
            assert(rest.skip(q - p) =~= s@.skip(q as int));
            assert(version_runs(rest, sep) == seq![rest.take(q - p)] + version_runs(
                s@.skip(q as int),
                !sep,
            ));
            assert(pre + version_runs(rest, sep) =~= r.deep_view() + version_runs(
                s@.skip(q as int),
                !sep,
            ));
            if q < m {
                assert(s@.skip(p as int)[q - p] == s@[q as int]);
                assert(is_sep(s@[q as int]) != sep);
            }
        }
        p = q;
        sep = !sep;
    }
    proof {
        assert(s@.skip(p as int).len() == 0);
        assert(version_runs(s@.skip(p as int), sep) =~= Seq::<Seq<char>>::empty());
        assert(version_split_spec(s@) =~= r.deep_view());
    }
    r
}

/// What a range argument denotes against `max` components: `n` alone is the
/// single component `n`, `n-` runs to the last component, and `n-m` is the
/// inclusive span; anything else is malformed.
pub open spec fn range_spec(s: Seq<char>, max: int) -> Option<(int, int)> {
    let dash = find_char(s, '-');
    if 0 <= dash && dash < s.len() {
        let start = s.take(dash);
        let rest = s.skip(dash + 1);
        if all_digits(start) && digits_val(start) <= u64::MAX {
            if rest.len() == 0 {
                Some((digits_val(start), max))
            } else if all_digits(rest) && digits_val(rest) <= u64::MAX {
                Some((digits_val(start), digits_val(rest)))
            } else {
                None
            }
        } else {
            None
        }
    } else {
        if all_digits(s) && digits_val(s) <= u64::MAX {
            Some((digits_val(s), digits_val(s)))
        } else {
            None
        }
    }
}

/// Parse a range argument against a component count.
pub fn parse_range(s: &str, max: u64) -> (r: Option<(u64, u64)>)
    ensures
        match r {
            Some((a, b)) => range_spec(s@, max as int) == Some((a as int, b as int)),
            None => range_spec(s@, max as int) is None,
        },
{
    let m = s.unicode_len();
    let dash = crate::text::find_char_index(s, '-');
    if dash == m {
        match parse_u64(s) {
            Some(n) => Some((n, n)),
            None => None,
        }
    } else {
        let start_str = s.substring_char(0, dash);
        let rest_str = s.substring_char(dash + 1, m);
        proof {
            assert(start_str@ =~= s@.take(dash as int));
            assert(rest_str@ =~= s@.skip(dash + 1));
        }
        let start = match parse_u64(start_str) {
            Some(n) => n,
            None => {
                return None;
            },
        };
        if rest_str.unicode_len() == 0 {
            Some((start, max))
        } else {
            match parse_u64(rest_str) {
                Some(n) => Some((start, n)),
                None => None,
            }
        }
    }
}

} // verus!