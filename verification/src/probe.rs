use vstd::prelude::*;

use crate::path::{dir_of, file_name, spec_dir_of, spec_file_name};
use crate::text::{lower_of, str_eq, to_lowercase};

verus! {

/// A listed file answers for a wanted path when it lies in the same
/// directory and its file name matches after case folding.
pub open spec fn matches_ci(entry: Seq<char>, target: Seq<char>) -> bool {
    spec_dir_of(entry) == spec_dir_of(target) && lower_of(spec_file_name(entry)) == lower_of(
        spec_file_name(target),
    )
}

/// The first listed file that answers for the wanted path, if any.
pub open spec fn spec_probe(files: Seq<Seq<char>>, target: Seq<char>) -> Option<Seq<char>>
    decreases files.len(),
{
    if files.len() == 0 {
        None
    } else if matches_ci(files.first(), target) {
        Some(files.first())
    } else {
        spec_probe(files.drop_first(), target)
    }
}

/// Case-insensitive file existence lookup within a directory listing: the
/// first listed file, if any, that lies in the wanted path's directory and
/// carries its name up to case.
pub fn file_exists_case_insensitive(files: &Vec<String>, target: &str) -> (r: Option<String>)
    ensures
        match r {
            Some(e) => spec_probe(files@.map_values(|p: String| p@), target@) == Some(e@),
            None => spec_probe(files@.map_values(|p: String| p@), target@) is None,
        },
{
    let ghost views = files@.map_values(|p: String| p@);
    let target_dir = dir_of(target);
    let target_name = to_lowercase(file_name(target).as_str());
    let n = files.len();
    let mut i: usize = 0;
    proof {
        assert(views.skip(0) =~= views);
    }
    while i < n
        invariant
            n == files@.len(),
            i <= n,
            views == files@.map_values(|p: String| p@),
            target_dir@ == spec_dir_of(target@),
            target_name@ == lower_of(spec_file_name(target@)),
            spec_probe(views, target@) == spec_probe(views.skip(i as int), target@),
        decreases n - i,
    {
        proof {
            assert(views.skip(i as int).first() == views[i as int]);
            assert(views.skip(i as int).drop_first() =~= views.skip(i + 1));
        }
        let entry = &files[i];
        let entry_dir = dir_of(entry.as_str());
        if str_eq(entry_dir.as_str(), target_dir.as_str()) {
            let entry_name = to_lowercase(file_name(entry.as_str()).as_str());
            if str_eq(entry_name.as_str(), target_name.as_str()) {
                proof {
                    assert(matches_ci(views[i as int], target@));
                }
                return Some(entry.clone());
            }
        }
        proof {
            assert(!matches_ci(views[i as int], target@));
        }
        i = i + 1;
    }
    proof {
        assert(views.skip(n as int) =~= Seq::<Seq<char>>::empty());
    }
    None
}

} // verus!
