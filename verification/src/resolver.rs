//! The ordered multi-directory resolution scan: which of the caller's search
//! directories hold each declared dependency.
//!
//! The scan is a pure function of the dependency names, the directory list,
//! and the caller's file-presence facts: `present[i][j]` says whether
//! directory `j` holds a regular file named like dependency `i`. The caller
//! establishes those facts; [`resolve`] is proved to turn them into exactly
//! the records that [`spec_resolve`] describes.

use vstd::prelude::*;

verus! {

/// Where one dependency was found: the dependency's name, and the
/// directories that hold a same-named regular file, in search order.
/// `matches` stays empty for an unresolved dependency.
#[derive(Debug, PartialEq, Eq)]
pub struct ResolutionRecord {
    /// The dependency's name, exactly as the image declares it.
    pub dependency: Vec<u8>,
    /// The directories holding a same-named regular file, in search order.
    pub matches: Vec<String>,
}

/// The directories, in order, whose presence fact is true.
pub open spec fn spec_matches(dirs: Seq<String>, row: Seq<bool>) -> Seq<String>
    decreases dirs.len(),
{
    if dirs.len() == 0 || row.len() == 0 {
        Seq::empty()
    } else if row[0] {
        seq![dirs[0]] + spec_matches(dirs.drop_first(), row.drop_first())
    } else {
        spec_matches(dirs.drop_first(), row.drop_first())
    }
}

/// The pair of name and matched directories that one record holds.
pub open spec fn record_view(r: ResolutionRecord) -> (Seq<u8>, Seq<String>) {
    (r.dependency@, r.matches@)
}

/// What resolution yields: one record per dependency, in dependency order,
/// pairing the name with the directories whose presence fact is true, in
/// directory order.
pub open spec fn spec_resolve(deps: Seq<Seq<u8>>, dirs: Seq<String>, present: Seq<Seq<bool>>) -> Seq<
    (Seq<u8>, Seq<String>),
> {
    Seq::new(deps.len(), |i: int| (deps[i], spec_matches(dirs, present[i])))
}

/// Copies a byte vector.
fn clone_bytes(v: &Vec<u8>) -> (r: Vec<u8>)
    ensures
        r@ == v@,
{
    let mut out: Vec<u8> = Vec::new();
    let mut i: usize = 0;
    while i < v.len()
        invariant
            i <= v@.len(),
            out@ =~= v@.take(i as int),
        decreases v@.len() - i,
    {
        out.push(v[i]);
        i = i + 1;
    }
    proof {
        assert(v@.take(v@.len() as int) =~= v@);
    }
    out
}

/// The directories, in order, whose presence fact for one dependency is
/// true.
fn matches_for(dirs: &Vec<String>, row: &Vec<bool>) -> (r: Vec<String>)
    requires
        row@.len() == dirs@.len(),
    ensures
        r@ == spec_matches(dirs@, row@),
{
    let mut out: Vec<String> = Vec::new();
    let mut j: usize = 0;
    proof {
        assert(dirs@.skip(0) =~= dirs@);
        assert(row@.skip(0) =~= row@);
        assert(Seq::<String>::empty() + spec_matches(dirs@, row@) =~= spec_matches(dirs@, row@));
    }
    while j < dirs.len()
        invariant
            row@.len() == dirs@.len(),
            j <= dirs@.len(),
            spec_matches(dirs@, row@) == out@ + spec_matches(
                dirs@.skip(j as int),
                row@.skip(j as int),
            ),
        decreases dirs@.len() - j,
    {
        let ghost old_out = out@;
        proof {
            assert(dirs@.skip(j as int)[0] == dirs@[j as int]);
            assert(dirs@.skip(j as int).drop_first() =~= dirs@.skip(j as int + 1));
            assert(row@.skip(j as int)[0] == row@[j as int]);
            assert(row@.skip(j as int).drop_first() =~= row@.skip(j as int + 1));
        }
        if row[j] {
            out.push(dirs[j].clone());
            proof {
                assert(out@ =~= old_out + seq![dirs@[j as int]]);
                assert((old_out + seq![dirs@[j as int]]) + spec_matches(
                    dirs@.skip(j as int + 1),
                    row@.skip(j as int + 1),
                ) =~= old_out + (seq![dirs@[j as int]] + spec_matches(
                    dirs@.skip(j as int + 1),
                    row@.skip(j as int + 1),
                )));
            }
        }
        j = j + 1;
    }
    proof {
        assert(dirs@.skip(dirs@.len() as int).len() == 0);
        assert(out@ + Seq::<String>::empty() =~= out@);
    }
    out
}

/// Resolves every dependency against every directory, in order.
///
/// `present[i][j]` is the caller's fact that directory `dirs[j]` holds a
/// regular file named `deps[i]`. The result has one record per dependency,
/// in dependency order — a name that occurs twice yields two independent
/// records — and each record lists every matching directory in search order:
/// the scan does not stop at the first match, and a dependency found nowhere
/// keeps an empty match list.
pub fn resolve(deps: &Vec<Vec<u8>>, dirs: &Vec<String>, present: &Vec<Vec<bool>>) -> (r: Vec<
    ResolutionRecord,
>)
    requires
        present@.len() == deps@.len(),
        forall|i: int| 0 <= i < present@.len() ==> (#[trigger] present@[i])@.len() == dirs@.len(),
    ensures
        r@.len() == deps@.len(),
        forall|i: int|
            0 <= i < r@.len() ==> (#[trigger] r@[i]).dependency@ == deps@[i]@ && r@[i].matches@
                == spec_matches(dirs@, present@[i]@),
        r@.map_values(|rec: ResolutionRecord| record_view(rec)) == spec_resolve(
            crate::pe::views_of(deps@),
            dirs@,
            present@.map_values(|p: Vec<bool>| p@),
        ),
{
    let mut out: Vec<ResolutionRecord> = Vec::new();
    let mut i: usize = 0;
    while i < deps.len()
        invariant
            present@.len() == deps@.len(),
            forall|k: int|
                0 <= k < present@.len() ==> (#[trigger] present@[k])@.len() == dirs@.len(),
            i <= deps@.len(),
            out@.len() == i,
            forall|k: int|
                0 <= k < i ==> (#[trigger] out@[k]).dependency@ == deps@[k]@ && out@[k].matches@
                    == spec_matches(dirs@, present@[k]@),
        decreases deps@.len() - i,
    {
        let rec = ResolutionRecord {
            dependency: clone_bytes(&deps[i]),
            matches: matches_for(dirs, &present[i]),
        };
        out.push(rec);
        i = i + 1;
    }
    proof {
        assert(out@.map_values(|rec: ResolutionRecord| record_view(rec)) =~~= spec_resolve(
            crate::pe::views_of(deps@),
            dirs@,
            present@.map_values(|p: Vec<bool>| p@),
        ));
    }
    out
}

/// Resolution is deterministic: any two results that resolution's contract
/// admits for the same dependencies, directories and presence facts carry
/// the same names and the same matched directories.
pub proof fn lemma_resolve_deterministic(
    deps: Seq<Seq<u8>>,
    dirs: Seq<String>,
    present: Seq<Seq<bool>>,
    r1: Seq<ResolutionRecord>,
    r2: Seq<ResolutionRecord>,
)
    requires
        r1.map_values(|rec: ResolutionRecord| record_view(rec)) == spec_resolve(
            deps,
            dirs,
            present,
        ),
        r2.map_values(|rec: ResolutionRecord| record_view(rec)) == spec_resolve(
            deps,
            dirs,
            present,
        ),
    ensures
        r1.map_values(|rec: ResolutionRecord| record_view(rec)) == r2.map_values(
            |rec: ResolutionRecord| record_view(rec),
        ),
{
}

/// `d` stands at some directory position whose presence fact is true.
pub open spec fn match_is_present(dirs: Seq<String>, row: Seq<bool>, d: String) -> bool {
    exists|j: int| 0 <= j < dirs.len() && #[trigger] row[j] && dirs[j] == d
}

/// Every matched directory comes from a position whose presence fact is
/// true: resolution never reports a directory the caller did not mark as
/// holding a same-named regular file.
pub proof fn lemma_matches_only_present(dirs: Seq<String>, row: Seq<bool>)
    requires
        dirs.len() == row.len(),
    ensures
        forall|k: int|
            0 <= k < spec_matches(dirs, row).len() ==> #[trigger] match_is_present(
                dirs,
                row,
                spec_matches(dirs, row)[k],
            ),
    decreases dirs.len(),
{
    if dirs.len() == 0 {
    } else {
        lemma_matches_only_present(dirs.drop_first(), row.drop_first());
        let tail = spec_matches(dirs.drop_first(), row.drop_first());
        assert forall|k: int| 0 <= k < spec_matches(dirs, row).len() implies #[trigger] match_is_present(
            dirs,
            row,
            spec_matches(dirs, row)[k],
        ) by {
            if row[0] && k == 0 {
                assert(spec_matches(dirs, row)[0] == dirs[0]);
                assert(0 <= 0 < dirs.len() && row[0] && dirs[0] == spec_matches(dirs, row)[k]);
            } else {
                let kt: int = if row[0] {
                    k - 1
                } else {
                    k
                };
                assert(spec_matches(dirs, row)[k] == tail[kt]);
                assert(0 <= kt < tail.len());
                assert(match_is_present(dirs.drop_first(), row.drop_first(), tail[kt]));
                let j0 = choose|j0: int|
                    0 <= j0 < dirs.drop_first().len() && #[trigger] row.drop_first()[j0]
                        && dirs.drop_first()[j0] == tail[kt];
                assert(dirs.drop_first()[j0] == dirs[j0 + 1]);
                assert(row.drop_first()[j0] == row[j0 + 1]);
                assert(0 <= j0 + 1 < dirs.len() && row[j0 + 1] && dirs[j0 + 1] == spec_matches(
                    dirs,
                    row,
                )[k]);
            }
        }
    }
}

} // verus!
