//! Character-level helpers on strings, with their specifications.

use vstd::prelude::*;
use vstd::string::*;

verus! {

/// The characters of `s`, in order.
pub fn chars_of(s: &str) -> (res: Vec<char>)
    ensures
        res@ == s@,
{
    let mut res: Vec<char> = Vec::new();
    for c in it: s.chars()
        invariant
            res@ == it.seq().take(it.index() as int),
    {
        res.push(c);
    }
    res
}

/// A character with the Unicode `White_Space` property.
pub open spec fn is_white_space(c: char) -> bool {
    ||| '\u{9}' <= c && c <= '\u{d}'
    ||| c == ' '
    ||| c == '\u{85}'
    ||| c == '\u{a0}'
    ||| c == '\u{1680}'
    ||| '\u{2000}' <= c && c <= '\u{200a}'
    ||| c == '\u{2028}'
    ||| c == '\u{2029}'
    ||| c == '\u{202f}'
    ||| c == '\u{205f}'
    ||| c == '\u{3000}'
}

/// `s` without its leading and trailing white space.
pub open spec fn trimmed(s: Seq<char>) -> Seq<char>
    decreases s.len(),
{
    if s.len() > 0 && is_white_space(s[0]) {
        trimmed(s.drop_first())
    } else if s.len() > 0 && is_white_space(s.last()) {
        trimmed(s.drop_last())
    } else {
        s
    }
}

/// Whether `c` has the Unicode `White_Space` property.
pub fn is_white_space_char(c: char) -> (res: bool)
    ensures
        res == is_white_space(c),
{
    let u = c as u32;
    (0x9 <= u && u <= 0xd) || u == 0x20 || u == 0x85 || u == 0xa0 || u == 0x1680 || (0x2000 <= u
        && u <= 0x200a) || u == 0x2028 || u == 0x2029 || u == 0x202f || u == 0x205f || u == 0x3000
}

/// Leading white space does not change what trimming gives.
proof fn lemma_trimmed_skip_leading(s: Seq<char>, i: int)
    requires
        0 <= i <= s.len(),
        forall|k: int| 0 <= k < i ==> is_white_space(#[trigger] s[k]),
    ensures
        trimmed(s) == trimmed(s.subrange(i, s.len() as int)),
    decreases i,
{
    if i == 0 {
        assert(s.subrange(0, s.len() as int) =~= s);
    } else {
        assert(is_white_space(s[0]));
        let t = s.drop_first();
        assert forall|k: int| 0 <= k < i - 1 implies is_white_space(#[trigger] t[k]) by {
            assert(t[k] == s[k + 1]);
        }
        lemma_trimmed_skip_leading(t, i - 1);
        assert(t.subrange(i - 1, t.len() as int) =~= s.subrange(i, s.len() as int));
    }
}

/// A string that does not start with white space loses only its trailing
/// white space to trimming.
proof fn lemma_trimmed_trailing(t: Seq<char>, m: int)
    requires
        0 <= m <= t.len(),
        t.len() > 0 ==> !is_white_space(t[0]),
        forall|k: int| m <= k < t.len() ==> is_white_space(#[trigger] t[k]),
        m > 0 ==> !is_white_space(t[m - 1]),
    ensures
        trimmed(t) == t.subrange(0, m),
    decreases t.len() - m,
{
    if m == t.len() {
        assert(t.subrange(0, m) =~= t);
    } else {
        assert(is_white_space(t[t.len() - 1]));
        if m == 0 {
            assert(is_white_space(t[0]));
        }
        let u = t.drop_last();
        assert(u[0] == t[0]);
        assert forall|k: int| m <= k < u.len() implies is_white_space(#[trigger] u[k]) by {
            assert(u[k] == t[k]);
        }
        assert(u[m - 1] == t[m - 1]);
        lemma_trimmed_trailing(u, m);
        assert(u.subrange(0, m) =~= t.subrange(0, m));
    }
}

/// A string of white space trims to nothing.
proof fn lemma_trimmed_white(w: Seq<char>)
    requires
        forall|k: int| 0 <= k < w.len() ==> is_white_space(#[trigger] w[k]),
    ensures
        trimmed(w) == Seq::<char>::empty(),
    decreases w.len(),
{
    if w.len() > 0 {
        assert(is_white_space(w[0]));
        let t = w.drop_first();
        assert forall|k: int| 0 <= k < t.len() implies is_white_space(#[trigger] t[k]) by {
            assert(t[k] == w[k + 1]);
        }
        lemma_trimmed_white(t);
    } else {
        assert(w =~= Seq::<char>::empty());
    }
}

/// Trailing white space does not change what trimming gives.
proof fn lemma_trimmed_trailing_white(s: Seq<char>, w: Seq<char>)
    requires
        forall|k: int| 0 <= k < w.len() ==> is_white_space(#[trigger] w[k]),
    ensures
        trimmed(s + w) == trimmed(s),
    decreases s.len(), w.len(),
{
    if s.len() == 0 {
        assert(s + w =~= w);
        lemma_trimmed_white(w);
        assert(s =~= Seq::<char>::empty());
    } else if is_white_space(s[0]) {
        assert((s + w)[0] == s[0]);
        assert((s + w).drop_first() =~= s.drop_first() + w);
        lemma_trimmed_trailing_white(s.drop_first(), w);
    } else if w.len() > 0 {
        let w0 = w.drop_last();
        assert((s + w)[0] == s[0]);
        assert((s + w).last() == w[w.len() - 1]);
        assert((s + w).drop_last() =~= s + w0);
        assert forall|k: int| 0 <= k < w0.len() implies is_white_space(#[trigger] w0[k]) by {
            assert(w0[k] == w[k]);
        }
        lemma_trimmed_trailing_white(s, w0);
    } else {
        assert(s + w =~= s);
    }
}

/// White space around a string does not change what trimming gives, so
/// what is computed from the trimmed text (such as the API version checks)
/// ignores such padding.
pub proof fn lemma_trimmed_padding(before: Seq<char>, s: Seq<char>, after: Seq<char>)
    requires
        forall|k: int| 0 <= k < before.len() ==> is_white_space(#[trigger] before[k]),
        forall|k: int| 0 <= k < after.len() ==> is_white_space(#[trigger] after[k]),
    ensures
        trimmed(before + s + after) == trimmed(s),
{
    let all = before + s + after;
    assert forall|k: int| 0 <= k < before.len() implies is_white_space(#[trigger] all[k]) by {
        assert(all[k] == before[k]);
    }
    lemma_trimmed_skip_leading(all, before.len() as int);
    assert(all.subrange(before.len() as int, all.len() as int) =~= s + after);
    lemma_trimmed_trailing_white(s, after);
}

/// `s` without its leading and trailing white space (the Unicode
/// `White_Space` characters).
pub fn trim(s: &str) -> (res: &str)
    ensures
        res@ == trimmed(s@),
{
    let c = chars_of(s);
    let len = c.len();
    let mut i: usize = 0;
    while i < len && is_white_space_char(c[i])
        invariant
            c@ == s@,
            len == c.len(),
            i <= len,
            forall|k: int| 0 <= k < i ==> is_white_space(#[trigger] c@[k]),
        decreases len - i,
    {
        i = i + 1;
    }
    let mut j: usize = len;
    while j > i && is_white_space_char(c[j - 1])
        invariant
            c@ == s@,
            len == c.len(),
            i <= j <= len,
            forall|k: int| j <= k < len ==> is_white_space(#[trigger] c@[k]),
        decreases j - i,
    {
        j = j - 1;
    }
    proof {
        lemma_trimmed_skip_leading(s@, i as int);
        let t = s@.subrange(i as int, len as int);
        assert forall|k: int| j - i <= k < t.len() implies is_white_space(#[trigger] t[k]) by {
            assert(t[k] == c@[k + i]);
        }
        if t.len() > 0 {
            assert(t[0] == c@[i as int]);
        }
        if j > i {
            assert(t[j - i - 1] == c@[j - 1]);
        }
        lemma_trimmed_trailing(t, j - i);
        assert(t.subrange(0, j - i) =~= s@.subrange(i as int, j as int));
    }
    s.substring_char(i, j)
}

} // verus!
