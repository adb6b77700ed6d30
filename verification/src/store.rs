use vstd::prelude::*;

use crate::error::Error;

verus! {

/// One name/id pair as the document store lists tags and custom fields.
#[derive(Debug, Clone, PartialEq, Eq)]
pub struct IdName {
    pub id: usize,
    pub name: String,
}

/// Character-wise string equality.
pub fn str_eq(a: &str, b: &str) -> (r: bool)
    ensures
        r == (a@ == b@),
{
    let an = a.unicode_len();
    let bn = b.unicode_len();
    if an != bn {
        return false;
    }
    let mut i: usize = 0;
    while i < an
        invariant
            i <= an,
            an == a@.len(),
            an == b@.len(),
            forall|j: int| 0 <= j < i ==> a@[j] == b@[j],
        decreases an - i,
    {
        if a.get_char(i) != b.get_char(i) {
            return false;
        }
        i += 1;
    }
    proof {
        assert(a@ =~= b@);
    }
    true
}

/// The id under `name` in a listing, taking the last entry when a name
/// occurs more than once (as a map built front to back would).
pub open spec fn spec_lookup(entries: Seq<IdName>, name: Seq<char>) -> Option<usize>
    decreases entries.len(),
{
    if entries.len() == 0 {
        None
    } else if entries.last().name@ == name {
        Some(entries.last().id)
    } else {
        spec_lookup(entries.drop_last(), name)
    }
}

/// Resolves a human-readable tag or custom-field name to its numeric id;
/// fails with `NotFoundError` exactly when no entry carries the name.
pub fn resolve_id(entries: &Vec<IdName>, name: &str) -> (r: Result<usize, Error>)
    ensures
        r is Ok <==> spec_lookup(entries@, name@) is Some,
        r is Ok ==> Some(r->Ok_0) == spec_lookup(entries@, name@),
        r is Err ==> r->Err_0 is NotFoundError,
{
    let mut i: usize = entries.len();
    proof {
        assert(entries@.take(i as int) =~= entries@);
    }
    while i > 0
        invariant
            i <= entries@.len(),
            spec_lookup(entries@, name@) == spec_lookup(entries@.take(i as int), name@),
        decreases i,
    {
        let j = i - 1;
        let matched = str_eq(entries[j].name.as_str(), name);
        proof {
            assert(entries@.take(i as int).last() == entries@[j as int]);
            assert(entries@.take(i as int).drop_last() =~= entries@.take(j as int));
        }
        if matched {
            return Ok(entries[j].id);
        }
        i = j;
    }
    proof {
        assert(entries@.take(0) =~= Seq::<IdName>::empty());
    }
    Err(Error::NotFoundError("no entry with the requested name: ".to_owned().concat(name)))
}

/// Sorts document identifiers ascending; the result holds exactly the given
/// identifiers.
pub fn sort_ids(ids: &Vec<usize>) -> (r: Vec<usize>)
    ensures
        forall|i: int, j: int| 0 <= i < j < r@.len() ==> r@[i] <= r@[j],
        r@.to_multiset() == ids@.to_multiset(),
{
    broadcast use vstd::seq_lib::group_to_multiset_ensures;

    let mut out: Vec<usize> = Vec::new();
    let n = ids.len();
    let mut i: usize = 0;
    proof {
        assert(ids@.take(0) =~= Seq::<usize>::empty());
        assert(Seq::<usize>::empty().to_multiset() =~= out@.to_multiset());
    }
    while i < n
        invariant
            i <= n,
            n == ids@.len(),
            out@.to_multiset() == ids@.take(i as int).to_multiset(),
            forall|p: int, q: int| 0 <= p < q < out@.len() ==> out@[p] <= out@[q],
        decreases n - i,
    {
        broadcast use vstd::seq_lib::group_to_multiset_ensures;

        let x = ids[i];
        let mut pos: usize = 0;
        let m = out.len();
        while pos < m && out[pos] <= x
            invariant
                pos <= m,
                m == out@.len(),
                forall|k: int| 0 <= k < pos ==> out@[k] <= x,
                forall|p: int, q: int| 0 <= p < q < out@.len() ==> out@[p] <= out@[q],
            decreases m - pos,
        {
            pos += 1;
        }
        let ghost before = out@;
        out.insert(pos, x);
        proof {
            assert(ids@.take(i + 1) =~= ids@.take(i as int).push(x));
            assert(out@ == before.insert(pos as int, x));
            before.insert_ensures(pos as int, x);
            assert forall|p: int, q: int| 0 <= p < q < out@.len() implies out@[p] <= out@[q] by {
                if q < pos {
                } else if p < pos && q == pos {
                    assert(out@[p] == before[p]);
                } else if p < pos && q > pos {
                    assert(out@[q] == before[q - 1]);
                } else if p == pos {
                    assert(out@[q] == before[q - 1]);
                    assert(before[q - 1] >= before[pos as int]);
                    assert(before[pos as int] > x);
                } else {
                    assert(out@[p] == before[p - 1]);
                    assert(out@[q] == before[q - 1]);
                }
            }
        }
        i += 1;
    }
    proof {
        assert(ids@.take(n as int) =~= ids@);
    }
    out
}

} // verus!
