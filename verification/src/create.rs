//! Building one store file out of many inputs: the sorting of the input
//! list into native triple files, files a parser must convert first, and
//! files that cannot be found; the reading, combining and writing around
//! that belongs to the caller that owns the files.

use vstd::prelude::*;
use vstd::multiset::Multiset;

use crate::rdf2nt::str_eq;
use crate::sparql::path_exists;

verus! {

/// Where each input file of a build goes.
pub struct FileClassification {
    /// Inputs already in the native triple format, taken as they are.
    pub nt_files: Vec<String>,
    /// Inputs a parser must convert first.
    pub to_convert: Vec<String>,
    /// Inputs that do not exist on disk.
    pub missing: Vec<String>,
}

/// Whether a path names a native triple file.
pub open spec fn ends_with_nt(p: Seq<char>) -> bool {
    p.len() >= 3 && p.subrange(p.len() - 3, p.len() as int) == ".nt"@
}

/// Sorts the input files of a build: a file that exists and carries the
/// native triple extension is taken directly, any other existing file goes
/// to the converter, and a missing file is reported. The three buckets
/// partition the input list — every input lands in exactly one of them and
/// nothing else appears — and the probe of the disk decides between the
/// first two buckets and the last.
pub fn classify_input_files(data: &Vec<String>) -> (r: FileClassification)
    ensures
        r.nt_files@.to_multiset().add(r.to_convert@.to_multiset()).add(
            r.missing@.to_multiset(),
        ) == data@.to_multiset(),
        r.nt_files@.len() + r.to_convert@.len() + r.missing@.len() == data@.len(),
        forall|i: int|
            0 <= i < r.nt_files@.len() ==> ends_with_nt(#[trigger] r.nt_files@[i]@),
        forall|i: int|
            0 <= i < r.to_convert@.len() ==> !ends_with_nt(#[trigger] r.to_convert@[i]@),
{
    broadcast use vstd::seq_lib::group_to_multiset_ensures;
    broadcast use vstd::multiset::group_multiset_axioms;

    let mut nt_files: Vec<String> = Vec::new();
    let mut to_convert: Vec<String> = Vec::new();
    let mut missing: Vec<String> = Vec::new();
    let mut i: usize = 0;
    proof {
        assert(data@.subrange(0, 0) =~= Seq::<String>::empty());
        assert(nt_files@.to_multiset().add(to_convert@.to_multiset()).add(missing@.to_multiset())
            =~= data@.subrange(0, 0).to_multiset());
    }
    while i < data.len()
        invariant
            0 <= i <= data@.len(),
            nt_files@.to_multiset().add(to_convert@.to_multiset()).add(missing@.to_multiset())
                == data@.subrange(0, i as int).to_multiset(),
            nt_files@.len() + to_convert@.len() + missing@.len() == i,
            forall|j: int|
                0 <= j < nt_files@.len() ==> ends_with_nt(#[trigger] nt_files@[j]@),
            forall|j: int|
                0 <= j < to_convert@.len() ==> !ends_with_nt(#[trigger] to_convert@[j]@),
        decreases data@.len() - i,
    {
        broadcast use vstd::seq_lib::group_to_multiset_ensures;
        broadcast use vstd::multiset::group_multiset_axioms;

        let f = &data[i];
        let ghost nt0 = nt_files@;
        let ghost cv0 = to_convert@;
        let ghost ms0 = missing@;
        proof {
            assert(data@.subrange(0, i + 1 as int) =~= data@.subrange(0, i as int).push(
                data@[i as int],
            ));
            assert(data@.subrange(0, i + 1 as int).to_multiset() =~= data@.subrange(
                0,
                i as int,
            ).to_multiset().insert(data@[i as int]));
        }
        if !path_exists(f) {
            missing.push(f.clone());
            proof {
                assert(missing@ =~= ms0.push(data@[i as int]));
                assert(nt_files@.to_multiset().add(to_convert@.to_multiset()).add(
                    missing@.to_multiset(),
                ) =~= data@.subrange(0, i + 1 as int).to_multiset());
            }
        } else {
            let fs = f.as_str();
            let n = fs.unicode_len();
            let mut is_nt = false;
            if n >= 3 {
                let tail = fs.substring_char(n - 3, n);
                proof {
                    assert(tail@ =~= f@.subrange(f@.len() - 3, f@.len() as int));
                }
                if str_eq(tail, ".nt") {
                    is_nt = true;
                }
            }
            proof {
                assert(is_nt == ends_with_nt(f@));
            }
            if is_nt {
                nt_files.push(f.clone());
                proof {
                    assert(nt_files@ =~= nt0.push(data@[i as int]));
                    assert(nt_files@.to_multiset().add(to_convert@.to_multiset()).add(
                        missing@.to_multiset(),
                    ) =~= data@.subrange(0, i + 1 as int).to_multiset());
                }
            } else {
                to_convert.push(f.clone());
                proof {
                    assert(to_convert@ =~= cv0.push(data@[i as int]));
                    assert(nt_files@.to_multiset().add(to_convert@.to_multiset()).add(
                        missing@.to_multiset(),
                    ) =~= data@.subrange(0, i + 1 as int).to_multiset());
                }
            }
        }
        i = i + 1;
    }
    proof {
        assert(data@.subrange(0, data@.len() as int) =~= data@);
    }
    FileClassification { nt_files, to_convert, missing }
}

/// Whether the combined temporary file is needed at all: with a single
/// native triple file and nothing converted, that one file is reused
/// unmodified.
pub fn needs_combined_file(nt_count: usize, converted: i32) -> (b: bool)
    ensures
        b == (nt_count > 1 || converted != 0),
{
    nt_count > 1 || converted != 0
}

} // verus!
