//! Colon-separated path lists, such as the value of `PATH`.

use vstd::prelude::*;
use vstd::string::*;
use crate::text::chars_of;

verus! {

/// The entries of the path list `s`: the pieces between its colons, empty
/// pieces included (so an empty list has one empty entry).
pub open spec fn split_path_list(s: Seq<char>) -> Seq<Seq<char>>
    decreases s.len(),
{
    if s.len() == 0 {
        seq![Seq::empty()]
    } else {
        let init = split_path_list(s.drop_last());
        if s.last() == ':' {
            init.push(Seq::empty())
        } else {
            init.update(init.len() - 1, init.last().push(s.last()))
        }
    }
}

/// The path list made of `entries`, joined with colons.
pub open spec fn join_path_list(entries: Seq<Seq<char>>) -> Seq<char>
    decreases entries.len(),
{
    if entries.len() == 0 {
        Seq::empty()
    } else if entries.len() == 1 {
        entries[0]
    } else {
        join_path_list(entries.drop_last()) + seq![':'] + entries.last()
    }
}

/// The entries of `entries` that are neither `a` nor `b`, in order.
pub open spec fn entries_without(entries: Seq<Seq<char>>, a: Seq<char>, b: Seq<char>) -> Seq<
    Seq<char>,
>
    decreases entries.len(),
{
    if entries.len() == 0 {
        Seq::empty()
    } else {
        let init = entries_without(entries.drop_last(), a, b);
        if entries.last() == a || entries.last() == b {
            init
        } else {
            init.push(entries.last())
        }
    }
}

/// `s` holds no colon.
pub open spec fn colon_free(s: Seq<char>) -> bool {
    forall|i: int| 0 <= i < s.len() ==> #[trigger] s[i] != ':'
}

/// The path list `path` without its entries `a` and `b`.
pub open spec fn path_without(path: Seq<char>, a: Seq<char>, b: Seq<char>) -> Seq<char> {
    join_path_list(entries_without(split_path_list(path), a, b))
}

/// A path list has at least one entry.
pub proof fn lemma_split_nonempty(s: Seq<char>)
    ensures
        split_path_list(s).len() >= 1,
    decreases s.len(),
{
    if s.len() > 0 {
        lemma_split_nonempty(s.drop_last());
    }
}

/// The entries of a path list hold no colon.
pub proof fn lemma_split_colon_free(s: Seq<char>)
    ensures
        forall|i: int|
            0 <= i < split_path_list(s).len() ==> colon_free(#[trigger] split_path_list(s)[i]),
    decreases s.len(),
{
    if s.len() > 0 {
        let init = split_path_list(s.drop_last());
        lemma_split_colon_free(s.drop_last());
        lemma_split_nonempty(s.drop_last());
        if s.last() != ':' {
            let last = init.last().push(s.last());
            assert(colon_free(init[init.len() - 1]));
            assert(colon_free(last));
        }
    }
}

/// Splitting `x:y`, with `y` free of colons, gives the entries of `x` and then `y`.
pub proof fn lemma_split_append(x: Seq<char>, y: Seq<char>)
    requires
        colon_free(y),
    ensures
        split_path_list(x + seq![':'] + y) == split_path_list(x).push(y),
    decreases y.len(),
{
    let xy = x + seq![':'] + y;
    if y.len() == 0 {
        assert(y =~= Seq::<char>::empty());
        assert(xy =~= (x + seq![':']));
        assert((x + seq![':']).drop_last() =~= x);
        assert(xy.last() == ':');
    } else {
        let y0 = y.drop_last();
        assert(y[y.len() - 1] != ':');
        assert(xy.last() == y.last());
        lemma_split_append(x, y0);
        assert(xy.drop_last() =~= x + seq![':'] + y0);
        assert(y0.push(y.last()) =~= y);
        assert(split_path_list(x).push(y0).update(split_path_list(x).len() as int, y)
            =~= split_path_list(x).push(y));
    }
}

/// A path list of one colon-free entry splits back into that entry.
pub proof fn lemma_split_single(y: Seq<char>)
    requires
        colon_free(y),
    ensures
        split_path_list(y) == seq![y],
    decreases y.len(),
{
    if y.len() == 0 {
        assert(y =~= Seq::<char>::empty());
    } else {
        let y0 = y.drop_last();
        assert(y[y.len() - 1] != ':');
        lemma_split_single(y0);
        assert(y0.push(y.last()) =~= y);
        assert(seq![y0].update(0, y) =~= seq![y]);
    }
}

/// Joining colon-free entries and splitting the result gives them back.
pub proof fn lemma_split_join(entries: Seq<Seq<char>>)
    requires
        entries.len() >= 1,
        forall|i: int| 0 <= i < entries.len() ==> colon_free(#[trigger] entries[i]),
    ensures
        split_path_list(join_path_list(entries)) == entries,
    decreases entries.len(),
{
    if entries.len() == 1 {
        lemma_split_single(entries[0]);
        assert(seq![entries[0]] =~= entries);
    } else {
        let init = entries.drop_last();
        assert forall|i: int| 0 <= i < init.len() implies colon_free(#[trigger] init[i]) by {
            assert(init[i] == entries[i]);
        }
        lemma_split_join(init);
        assert(colon_free(entries[entries.len() - 1]));
        lemma_split_append(join_path_list(init), entries.last());
        assert(init.push(entries.last()) =~= entries);
    }
}

/// The kept entries are entries of the list, and none is `a` or `b`.
pub proof fn lemma_entries_without(entries: Seq<Seq<char>>, a: Seq<char>, b: Seq<char>)
    ensures
        forall|i: int|
            0 <= i < entries_without(entries, a, b).len() ==> {
                &&& #[trigger] entries_without(entries, a, b)[i] != a
                &&& entries_without(entries, a, b)[i] != b
                &&& entries.contains(entries_without(entries, a, b)[i])
            },
    decreases entries.len(),
{
    if entries.len() > 0 {
        let init = entries.drop_last();
        lemma_entries_without(init, a, b);
        let kept = entries_without(entries, a, b);
        assert forall|i: int| 0 <= i < kept.len() implies {
            &&& #[trigger] kept[i] != a
            &&& kept[i] != b
            &&& entries.contains(kept[i])
        } by {
            if i < entries_without(init, a, b).len() {
                assert(kept[i] == entries_without(init, a, b)[i]);
                let j = choose|j: int| 0 <= j < init.len() && init[j] == kept[i];
                assert(entries[j] == init[j]);
            } else {
                assert(entries[entries.len() - 1] == kept[i]);
            }
        }
    }
}

/// After removing the entries `a` and `b` from a path list, with `a` and
/// `b` non-empty, no entry of the result is `a` or `b`.
pub proof fn lemma_path_without_excludes(path: Seq<char>, a: Seq<char>, b: Seq<char>)
    requires
        a.len() > 0,
        b.len() > 0,
    ensures
        forall|i: int|
            0 <= i < split_path_list(path_without(path, a, b)).len() ==> {
                &&& #[trigger] split_path_list(path_without(path, a, b))[i] != a
                &&& split_path_list(path_without(path, a, b))[i] != b
            },
{
    let entries = split_path_list(path);
    let kept = entries_without(entries, a, b);
    lemma_entries_without(entries, a, b);
    lemma_split_colon_free(path);
    if kept.len() == 0 {
        assert(path_without(path, a, b) =~= Seq::<char>::empty());
        assert(split_path_list(Seq::<char>::empty()) =~= seq![Seq::<char>::empty()]);
    } else {
        assert forall|i: int| 0 <= i < kept.len() implies colon_free(#[trigger] kept[i]) by {
            let j = choose|j: int| 0 <= j < entries.len() && entries[j] == kept[i];
        }
        lemma_split_join(kept);
    }
}

/// Removing `a` and `b` from entries that hold neither changes nothing.
pub proof fn lemma_entries_without_none(entries: Seq<Seq<char>>, a: Seq<char>, b: Seq<char>)
    requires
        forall|i: int| 0 <= i < entries.len() ==> #[trigger] entries[i] != a && entries[i] != b,
    ensures
        entries_without(entries, a, b) == entries,
    decreases entries.len(),
{
    if entries.len() > 0 {
        let init = entries.drop_last();
        assert forall|i: int| 0 <= i < init.len() implies #[trigger] init[i] != a && init[i] != b by {
            assert(init[i] == entries[i]);
        }
        lemma_entries_without_none(init, a, b);
        assert(entries[entries.len() - 1] != a);
        assert(init.push(entries.last()) =~= entries);
    }
}

/// Removing the entries `a` and `b` a second time changes nothing.
pub proof fn lemma_path_without_idempotent(path: Seq<char>, a: Seq<char>, b: Seq<char>)
    ensures
        path_without(path_without(path, a, b), a, b) == path_without(path, a, b),
{
    let entries = split_path_list(path);
    let kept = entries_without(entries, a, b);
    lemma_entries_without(entries, a, b);
    lemma_split_colon_free(path);
    let once = path_without(path, a, b);
    if kept.len() == 0 {
        assert(once =~= Seq::<char>::empty());
        let e = seq![Seq::<char>::empty()];
        assert(split_path_list(Seq::<char>::empty()) =~= e);
        assert(e.drop_last() =~= Seq::<Seq<char>>::empty());
        let again = entries_without(e, a, b);
        assert(entries_without(e.drop_last(), a, b) =~= Seq::<Seq<char>>::empty());
        assert(e.last() == Seq::<char>::empty());
        if again.len() != 0 {
            assert(again =~= seq![Seq::<char>::empty()]);
            assert(join_path_list(again) == again[0]);
        }
        assert(join_path_list(again) =~= Seq::<char>::empty());
    } else {
        assert forall|i: int| 0 <= i < kept.len() implies colon_free(#[trigger] kept[i]) by {
            let j = choose|j: int| 0 <= j < entries.len() && entries[j] == kept[i];
        }
        lemma_split_join(kept);
        lemma_entries_without_none(kept, a, b);
    }
}

/// The views of a sequence of strings.
pub open spec fn views(v: Seq<String>) -> Seq<Seq<char>> {
    v.map_values(|s: String| s@)
}

/// The entries of the path list `path`.
pub fn split_path(path: &str) -> (res: Vec<String>)
    ensures
        views(res@) == split_path_list(path@),
{
    let c = chars_of(path);
    let len = c.len();
    let mut parts: Vec<String> = Vec::new();
    let mut start: usize = 0;
    let mut i: usize = 0;
    assert(path@.subrange(0, 0) =~= Seq::<char>::empty());
    assert(views(parts@).push(path@.subrange(0, 0)) =~= seq![Seq::<char>::empty()]);
    while i < len
        invariant
            len == c.len() == path@.len(),
            c@ == path@,
            start <= i <= len,
            views(parts@).push(path@.subrange(start as int, i as int)) == split_path_list(
                path@.subrange(0, i as int),
            ),
        decreases len - i,
    {
        let ghost prefix = path@.subrange(0, i + 1);
        assert(prefix.drop_last() =~= path@.subrange(0, i as int));
        assert(prefix.last() == c@[i as int]);
        let ghost before = views(parts@);
        let ghost seg = path@.subrange(start as int, i as int);
        if c[i] == ':' {
            let piece = String::from_str(path.substring_char(start, i));
            parts.push(piece);
            assert(views(parts@) =~= before.push(seg));
            assert(path@.subrange((i + 1) as int, (i + 1) as int) =~= Seq::<char>::empty());
            start = i + 1;
        } else {
            assert(path@.subrange(start as int, i + 1) =~= seg.push(c@[i as int]));
            assert(before.push(seg).update(before.len() as int, seg.push(c@[i as int]))
                =~= before.push(path@.subrange(start as int, i + 1)));
        }
        i = i + 1;
    }
    assert(path@.subrange(0, len as int) =~= path@);
    let ghost before = views(parts@);
    let last = String::from_str(path.substring_char(start, len));
    parts.push(last);
    assert(views(parts@) =~= before.push(last@));
    parts
}

/// The path list made of `entries`, joined with colons.
pub fn join_path(entries: &Vec<String>) -> (res: String)
    ensures
        res@ == join_path_list(views(entries@)),
{
    let mut out = String::new();
    let mut i: usize = 0;
    assert(views(entries@).take(0) =~= Seq::<Seq<char>>::empty());
    while i < entries.len()
        invariant
            i <= entries.len(),
            out@ == join_path_list(views(entries@).take(i as int)),
        decreases entries.len() - i,
    {
        let ghost all = views(entries@);
        assert(all.take(i + 1).drop_last() =~= all.take(i as int));
        assert(all.take(i + 1).last() == entries@[i as int]@);
        if i > 0 {
            out.append(":");
            proof {
                reveal_strlit(":");
                assert(":"@ =~= seq![':']);
            }
        } else {
            assert(out@ =~= Seq::<char>::empty());
            assert(all.take(1) =~= seq![all[0]]);
        }
        out.append(entries[i].as_str());
        i = i + 1;
    }
    assert(views(entries@).take(entries.len() as int) =~= views(entries@));
    out
}

/// The entries of `entries` that are neither `a` nor `b`, in order.
pub fn remove_entries(entries: Vec<String>, a: &str, b: &str) -> (res: Vec<String>)
    ensures
        views(res@) == entries_without(views(entries@), a@, b@),
{
    let a = String::from_str(a);
    let b = String::from_str(b);
    let mut kept: Vec<String> = Vec::new();
    let mut i: usize = 0;
    assert(views(entries@).take(0) =~= Seq::<Seq<char>>::empty());
    while i < entries.len()
        invariant
            i <= entries.len(),
            views(kept@) == entries_without(views(entries@).take(i as int), a@, b@),
        decreases entries.len() - i,
    {
        let ghost all = views(entries@);
        let ghost before = views(kept@);
        assert(all.take(i + 1).drop_last() =~= all.take(i as int));
        assert(all.take(i + 1).last() == entries@[i as int]@);
        if !(entries[i] == a) && !(entries[i] == b) {
            kept.push(entries[i].clone());
            assert(views(kept@) =~= before.push(entries@[i as int]@));
        }
        i = i + 1;
    }
    assert(views(entries@).take(entries.len() as int) =~= views(entries@));
    kept
}

/// The path list `path` without its entries `a` and `b`.
pub fn path_without_entries(path: &str, a: &str, b: &str) -> (res: String)
    ensures
        res@ == path_without(path@, a@, b@),
{
    let entries = split_path(path);
    let kept = remove_entries(entries, a, b);
    join_path(&kept)
}

} // verus!
