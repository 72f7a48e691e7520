//! API versions of the form `[v]MAJOR[.[MINOR]]`.

use vstd::prelude::*;
use vstd::string::*;
use crate::text::chars_of;

verus! {

/// An API version: a major and a minor number.
#[derive(Debug, Clone, Copy, PartialEq, Eq, Structural)]
pub struct Version {
    pub major: u64,
    pub minor: u64,
}

/// An ASCII decimal digit.
pub open spec fn is_digit(c: char) -> bool {
    '0' <= c && c <= '9'
}

/// The number of leading ASCII digits of `s`.
pub open spec fn digit_run(s: Seq<char>) -> nat
    decreases s.len(),
{
    if s.len() > 0 && is_digit(s[0]) {
        1 + digit_run(s.drop_first())
    } else {
        0
    }
}

/// Every character of `s` is an ASCII digit.
pub open spec fn all_digits(s: Seq<char>) -> bool {
    forall|i: int| 0 <= i < s.len() ==> is_digit(#[trigger] s[i])
}

/// The decimal value of a string of digits.
pub open spec fn digits_value(s: Seq<char>) -> nat
    decreases s.len(),
{
    if s.len() == 0 {
        0
    } else {
        digits_value(s.drop_last()) * 10 + ((s.last() as int) - ('0' as int)) as nat
    }
}

/// `s` without its leading `v`, if it has one.
pub open spec fn without_v(s: Seq<char>) -> Seq<char> {
    if s.len() > 0 && s[0] == 'v' {
        s.drop_first()
    } else {
        s
    }
}

/// The numbers that `s` spells when it has the form `[v]DIGITS[.[DIGITS]]`
/// (the whole string, leading `v` optional, at least one major digit),
/// whatever their size; `None` when `s` has another form.
pub open spec fn version_numbers(s: Seq<char>) -> Option<(nat, nat)> {
    let b = without_v(s);
    let n = digit_run(b) as int;
    if n == 0 {
        None
    } else if n == b.len() {
        Some((digits_value(b), 0))
    } else if b[n] == '.' && all_digits(b.subrange(n + 1, b.len() as int)) {
        Some((digits_value(b.subrange(0, n)), digits_value(b.subrange(n + 1, b.len() as int))))
    } else {
        None
    }
}

/// The version that `s` denotes: its numbers, when both fit in 64 bits.
pub open spec fn parse_version_spec(s: Seq<char>) -> Option<Version> {
    match version_numbers(s) {
        Some((major, minor)) => if major <= u64::MAX && minor <= u64::MAX {
            Some(Version { major: major as u64, minor: minor as u64 })
        } else {
            None
        },
        None => None,
    }
}

/// The message of a failed parse of `s`.
pub open spec fn parse_error_message(s: Seq<char>) -> Seq<char> {
    "could not parse '"@ + s + "' as version"@
}

impl Version {
    /// `self` accepts `other`: a `0.x` version accepts only itself, any
    /// other version accepts the versions of its major line with a minor
    /// number no greater than its own.
    pub open spec fn superset_spec(self, other: Version) -> bool {
        if self.major == 0 {
            self == other
        } else {
            self.major == other.major && self.minor >= other.minor
        }
    }
}


/// `digit_run` counts the whole of `s` exactly when `s` is all digits.
pub proof fn lemma_digit_run_all(s: Seq<char>)
    ensures
        digit_run(s) <= s.len(),
        all_digits(s.subrange(0, digit_run(s) as int)),
        (digit_run(s) == s.len()) == all_digits(s),
        digit_run(s) < s.len() ==> !is_digit(s[digit_run(s) as int]),
    decreases s.len(),
{
    if s.len() > 0 && is_digit(s[0]) {
        let t = s.drop_first();
        lemma_digit_run_all(t);
        assert forall|i: int| 0 <= i < digit_run(s) implies is_digit(
            #[trigger] s.subrange(0, digit_run(s) as int)[i],
        ) by {
            if i > 0 {
                assert(s.subrange(0, digit_run(s) as int)[i] == t.subrange(0, digit_run(t) as int)[i - 1]);
            }
        }
        if all_digits(s) {
            assert forall|i: int| 0 <= i < t.len() implies is_digit(#[trigger] t[i]) by {
                assert(t[i] == s[i + 1]);
            }
        }
        if all_digits(t) {
            assert forall|i: int| 0 <= i < s.len() implies is_digit(#[trigger] s[i]) by {
                if i > 0 {
                    assert(s[i] == t[i - 1]);
                }
            }
        }
    } else {
        if s.len() > 0 {
            assert(!is_digit(s[0]));
        }
    }
}

/// Skipping `j` leading digits shortens the digit run by `j`.
pub proof fn lemma_digit_run_skip(s: Seq<char>, j: int)
    requires
        0 <= j <= s.len(),
        all_digits(s.subrange(0, j)),
    ensures
        digit_run(s) == j + digit_run(s.subrange(j, s.len() as int)),
    decreases j,
{
    if j == 0 {
        assert(s.subrange(0, s.len() as int) =~= s);
    } else {
        assert(is_digit(s.subrange(0, j)[0]));
        let t = s.drop_first();
        assert forall|i: int| 0 <= i < j - 1 implies is_digit(#[trigger] t.subrange(0, j - 1)[i]) by {
            assert(t.subrange(0, j - 1)[i] == s.subrange(0, j)[i + 1]);
        }
        lemma_digit_run_skip(t, j - 1);
        assert(t.subrange(j - 1, t.len() as int) =~= s.subrange(j, s.len() as int));
    }
}

/// Reads the run of digits of `c` that starts at `from`: where it ends and,
/// when it fits in 64 bits, its value.
fn read_digits(c: &Vec<char>, from: usize) -> (res: (usize, Option<u64>))
    requires
        from <= c.len(),
    ensures
        from <= res.0 <= c.len(),
        res.0 - from == digit_run(c@.subrange(from as int, c.len() as int)),
        all_digits(c@.subrange(from as int, res.0 as int)),
        match res.1 {
            Some(v) => v == digits_value(c@.subrange(from as int, res.0 as int)),
            None => digits_value(c@.subrange(from as int, res.0 as int)) > u64::MAX,
        },
{
    let len = c.len();
    let mut i = from;
    let mut value: Option<u64> = Some(0);
    while i < len && '0' <= c[i] && c[i] <= '9'
        invariant
            len == c.len(),
            from <= i <= len,
            all_digits(c@.subrange(from as int, i as int)),
            match value {
                Some(v) => v == digits_value(c@.subrange(from as int, i as int)),
                None => digits_value(c@.subrange(from as int, i as int)) > u64::MAX,
            },
        decreases len - i,
    {
        let ghost prev = c@.subrange(from as int, i as int);
        let ghost next = c@.subrange(from as int, i + 1);
        assert(next.drop_last() =~= prev);
        let d = (c[i] as u32 - '0' as u32) as u64;
        assert(d == (next.last() as int) - ('0' as int));
        value = match value {
            Some(v) => match v.checked_mul(10) {
                Some(t) => t.checked_add(d),
                None => None,
            },
            None => None,
        };
        assert forall|k: int| 0 <= k < next.len() implies is_digit(#[trigger] next[k]) by {
            if k < prev.len() {
                assert(next[k] == prev[k]);
            }
        }
        i = i + 1;
    }
    proof {
        let rest = c@.subrange(from as int, len as int);
        assert(rest.subrange(0, i - from) =~= c@.subrange(from as int, i as int));
        lemma_digit_run_skip(rest, i - from);
        let tail = rest.subrange(i - from, rest.len() as int);
        if i < len {
            assert(tail[0] == c@[i as int]);
        }
        assert(digit_run(tail) == 0);
    }
    (i, value)
}

/// `"0.A"` denotes version `0.A` for a digit `A`.
pub proof fn lemma_parse_zero_dot_one(a: char)
    requires
        is_digit(a),
    ensures
        parse_version_spec(seq!['0', '.', a]) == Some(
            Version { major: 0, minor: ((a as int) - ('0' as int)) as u64 },
        ),
{
    let s = seq!['0', '.', a];
    reveal_with_fuel(digit_run, 3);
    reveal_with_fuel(digits_value, 3);
    assert(s.drop_first() =~= seq!['.', a]);
    assert(s.subrange(0, 1) =~= seq!['0']);
    assert(s.subrange(2, 3) =~= seq![a]);
    assert(seq![a].drop_last() =~= Seq::<char>::empty());
    assert(seq!['0'].drop_last() =~= Seq::<char>::empty());
}

/// `"0.AB"` denotes version `0.AB` for digits `A` and `B`.
pub proof fn lemma_parse_zero_dot_two(a: char, b: char)
    requires
        is_digit(a),
        is_digit(b),
    ensures
        parse_version_spec(seq!['0', '.', a, b]) == Some(
            Version {
                major: 0,
                minor: (((a as int) - ('0' as int)) * 10 + ((b as int) - ('0' as int))) as u64,
            },
        ),
{
    let s = seq!['0', '.', a, b];
    reveal_with_fuel(digit_run, 3);
    reveal_with_fuel(digits_value, 3);
    assert(s.drop_first() =~= seq!['.', a, b]);
    assert(s.subrange(0, 1) =~= seq!['0']);
    assert(s.subrange(2, 4) =~= seq![a, b]);
    assert(seq![a, b].drop_last() =~= seq![a]);
    assert(seq![a].drop_last() =~= Seq::<char>::empty());
    assert(seq!['0'].drop_last() =~= Seq::<char>::empty());
}

/// Acceptance is reflexive and transitive, and two versions that accept
/// each other are equal.
pub proof fn lemma_superset_partial_order(a: Version, b: Version, c: Version)
    ensures
        a.superset_spec(a),
        a.superset_spec(b) && b.superset_spec(c) ==> a.superset_spec(c),
        a.superset_spec(b) && b.superset_spec(a) ==> a == b,
{
}

/// `written` parses to a version that accepts `requested`.
pub open spec fn written_accepts(written: Seq<char>, requested: Version) -> bool {
    match parse_version_spec(written) {
        Some(v) => v.superset_spec(requested),
        None => false,
    }
}

/// Some version written in `list` accepts `requested`.
pub open spec fn listed_superset(list: Seq<Seq<char>>, requested: Version) -> bool {
    exists|i: int| 0 <= i < list.len() && #[trigger] written_accepts(list[i], requested)
}

/// Whether some version written in `list` parses and accepts `requested`.
pub(crate) fn any_listed_superset(list: &Vec<&'static str>, requested: &Version) -> (res: bool)
    ensures
        res == listed_superset(list@.map_values(|s: &str| s@), *requested),
{
    let ghost views = list@.map_values(|s: &str| s@);
    let mut i: usize = 0;
    while i < list.len()
        invariant
            i <= list.len(),
            views == list@.map_values(|s: &str| s@),
            forall|j: int| 0 <= j < i ==> !#[trigger] written_accepts(views[j], *requested),
        decreases list.len() - i,
    {
        assert(views[i as int] == list@[i as int]@);
        match Version::parse(list[i]) {
            Ok(v) => {
                if v.is_superset_of(requested) {
                    assert(written_accepts(views[i as int], *requested));
                    return true;
                }
            },
            Err(_) => {},
        }
        i = i + 1;
    }
    false
}

impl Version {
    /// Whether `self` accepts `other` (see `superset_spec`).
    pub fn is_superset_of(&self, other: &Version) -> (res: bool)
        ensures
            res == self.superset_spec(*other),
    {
        if self.major == 0 {
            self.major == other.major && self.minor == other.minor
        } else {
            self.major == other.major && self.minor >= other.minor
        }
    }

    /// Parses `[v]MAJOR[.[MINOR]]`, the whole string, with decimal numbers
    /// that fit in 64 bits; any other string is refused with a message.
    pub fn parse(s: &str) -> (res: Result<Version, String>)
        ensures
            match res {
                Ok(v) => parse_version_spec(s@) == Some(v),
                Err(e) => parse_version_spec(s@) is None && e@ == parse_error_message(s@),
            },
    {
        let c = chars_of(s);
        let len = c.len();
        let start: usize = if len > 0 && c[0] == 'v' { 1 } else { 0 };
        let ghost b = without_v(s@);
        assert(b =~= c@.subrange(start as int, len as int));
        let (end, major) = read_digits(&c, start);
        let ghost n = end - start;
        assert(b.subrange(0, n) =~= c@.subrange(start as int, end as int));
        let mut ok: Option<Version> = None;
        if end > start {
            if end == len {
                if let Some(m) = major {
                    ok = Some(Version { major: m, minor: 0 });
                }
            } else if c[end] == '.' {
                assert(b[n] == c@[end as int]);
                let (end2, minor) = read_digits(&c, end + 1);
                proof {
                    let tail = c@.subrange(end + 1, len as int);
                    assert(b.subrange(n + 1, b.len() as int) =~= tail);
                    lemma_digit_run_all(tail);
                }
                if end2 == len {
                    if let (Some(m), Some(k)) = (major, minor) {
                        ok = Some(Version { major: m, minor: k });
                    }
                }
            }
        }
        match ok {
            Some(v) => Ok(v),
            None => {
                let mut e = String::from_str("could not parse '");
                e.append(s);
                e.append("' as version");
                Err(e)
            },
        }
    }
}

impl std::str::FromStr for Version {
    type Err = String;

    /// Parses `s` as `Version::parse` does.
    fn from_str(s: &str) -> (res: Result<Version, String>)
        ensures
            match res {
                Ok(v) => parse_version_spec(s@) == Some(v),
                Err(e) => parse_version_spec(s@) is None && e@ == parse_error_message(s@),
            },
    {
        Version::parse(s)
    }
}

} // verus!
