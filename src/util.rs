use vstd::prelude::*;

use crate::text::{lowercase, lowercase_spec};

verus! {

broadcast use vstd::string::group_string_axioms;

/// A file is a candidate input when it has no extension or its extension, lowercased,
/// is `txt`, `tsv` or `csv`.
pub open spec fn candidate_spec(extension: Option<Seq<char>>) -> bool {
    match extension {
        None => true,
        Some(e) => {
            let l = lowercase_spec(e);
            l == "txt"@ || l == "tsv"@ || l == "csv"@
        },
    }
}

/// Whether a file with this extension is read as a genotype file.
pub fn is_candidate_file(extension: Option<&str>) -> (r: bool)
    ensures
        r == candidate_spec(
            match extension {
                Some(e) => Some(e@),
                None => None,
            },
        ),
{
    match extension {
        None => true,
        Some(e) => {
            let l = lowercase(crate::text::chars_of(e).as_slice());
            let txt = crate::text::chars_of("txt");
            let tsv = crate::text::chars_of("tsv");
            let csv = crate::text::chars_of("csv");
            crate::genotype::same_chars(l.as_slice(), txt.as_slice())
                || crate::genotype::same_chars(l.as_slice(), tsv.as_slice())
                || crate::genotype::same_chars(l.as_slice(), csv.as_slice())
        },
    }
}

} // verus!
