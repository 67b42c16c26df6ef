use vstd::prelude::*;

use crate::text::{chars_of, lowercase, lowercase_spec, parse_i64, parse_i64_spec, trim, trim_spec};

verus! {

broadcast use vstd::string::group_string_axioms;

/// One row of the reference table.
#[derive(Debug, Clone)]
pub struct ReferenceVariant {
    pub rsid: i64,
    pub chromosome: String,
    pub position: i64,
    pub reference: String,
    pub alternates: String,
}

/// The aggregate store, known by the path of its database.
#[derive(Debug, Clone)]
pub struct StatsStore {
    pub sqlite_path: String,
}

/// A category and how often it was seen.
#[derive(Debug, Clone)]
pub struct CategoryCount {
    pub value: Option<String>,
    pub count: u64,
}

/// The aggregate summary of the store.
#[derive(Debug, Clone)]
pub struct SummaryReport {
    pub files_processed: usize,
    pub total_variants: u64,
    pub skipped_rows: u64,
    pub unique_rsids: u64,
    pub formats_seen: Vec<CategoryCount>,
    pub builds_seen: Vec<CategoryCount>,
    pub sqlite_path: String,
}

/// The sum of the counts of `cs`.
pub open spec fn total_count(cs: Seq<CategoryCount>) -> nat
    decreases cs.len(),
{
    if cs.len() == 0 {
        0
    } else {
        total_count(cs.drop_last()) + cs.last().count as nat
    }
}

proof fn lemma_total_prefix(cs: Seq<CategoryCount>, i: int)
    requires
        0 <= i <= cs.len(),
    ensures
        total_count(cs.take(i)) <= total_count(cs),
    decreases cs.len() - i,
{
    if i < cs.len() {
        lemma_total_prefix(cs, i + 1);
        assert(cs.take(i + 1).drop_last() =~= cs.take(i));
    } else {
        assert(cs.take(i) =~= cs);
    }
}

impl StatsStore {
    pub fn new(sqlite_path: String) -> (r: Self)
        ensures
            r.sqlite_path@ == sqlite_path@,
    {
        StatsStore { sqlite_path }
    }

    /// Whether the store records a file. The store keeps no per-file table, so this is
    /// always `false` and the skip-if-recorded option never skips a file.
    pub fn has_file(&self, path: &str) -> (r: bool)
        ensures
            !r,
    {
        false
    }

    /// The summary of the store from what its tables hold: the number of reference
    /// rows, and the counts per format and per genome build. The variant total is the
    /// sum of the per-format counts. The store keeps no per-file rows, so the file and
    /// skipped-row totals are always zero.
    pub fn summary(
        &self,
        unique_rsids: i64,
        formats_seen: Vec<CategoryCount>,
        builds_seen: Vec<CategoryCount>,
    ) -> (r: SummaryReport)
        requires
            total_count(formats_seen@) <= u64::MAX,
        ensures
            r.files_processed == 0,
            r.total_variants == total_count(formats_seen@),
            r.skipped_rows == 0,
            r.unique_rsids == unique_rsids as u64,
            r.formats_seen@ == formats_seen@,
            r.builds_seen@ == builds_seen@,
            r.sqlite_path@ == self.sqlite_path@,
    {
        let mut total: u64 = 0;
        let mut i: usize = 0;
        while i < formats_seen.len()
            invariant
                i <= formats_seen@.len(),
                total == total_count(formats_seen@.take(i as int)),
                total_count(formats_seen@) <= u64::MAX,
            decreases formats_seen.len() - i,
        {
            proof {
                assert(formats_seen@.take(i + 1).drop_last() =~= formats_seen@.take(i as int));
                lemma_total_prefix(formats_seen@, i + 1);
            }
            total = total + formats_seen[i].count;
            i += 1;
        }
        assert(formats_seen@.take(formats_seen@.len() as int) =~= formats_seen@);
        SummaryReport {
            files_processed: 0,
            total_variants: total,
            skipped_rows: 0,
            unique_rsids: unique_rsids as u64,
            formats_seen,
            builds_seen,
            sqlite_path: self.sqlite_path.clone(),
        }
    }

    /// The reference rows as the store returns them, ordered by chromosome and
    /// position, cut to `limit` rows when one is given.
    pub fn all_references(&self, rows: Vec<ReferenceVariant>, limit: Option<usize>) -> (r: Vec<
        ReferenceVariant,
    >)
        ensures
            r@ == match limit {
                Some(l) => if l < rows@.len() {
                    rows@.take(l as int)
                } else {
                    rows@
                },
                None => rows@,
            },
    {
        let mut rows = rows;
        match limit {
            Some(l) => {
                if l < rows.len() {
                    rows.truncate(l);
                }
            },
            None => {},
        }
        rows
    }
}

/// One row of the reference lookup table, as text.
#[derive(Debug, Clone)]
pub struct LookupRow {
    pub query_rsid: String,
    pub query_chrom: String,
    pub query_pos: String,
    pub ref_pos: String,
    pub reference: String,
    pub alt: String,
    pub status: String,
}

/// Why a lookup row cannot be loaded.
#[derive(Debug, Clone, Copy, PartialEq, Eq, Structural)]
pub enum LookupError {
    /// Neither position column holds an integer.
    BadPosition,
    /// The rsid, without its `rs` prefix, is no integer.
    BadRsid,
}

/// `s` without its leading run of `rs` prefixes.
pub open spec fn strip_rs(s: Seq<char>) -> Seq<char>
    decreases s.len(),
{
    if s.len() >= 2 && s[0] == 'r' && s[1] == 's' {
        strip_rs(s.skip(2))
    } else {
        s
    }
}

fn strip_rs_prefix(s: &[char]) -> (r: Vec<char>)
    ensures
        r@ == strip_rs(s@),
{
    let n = s.len();
    let mut i: usize = 0;
    assert(s@.subrange(0, n as int) =~= s@);
    while i < n && i + 1 < n && s[i] == 'r' && s[i + 1] == 's'
        invariant
            i <= n == s@.len(),
            strip_rs(s@) == strip_rs(s@.subrange(i as int, n as int)),
        decreases n - i,
    {
        assert(s@.subrange(i as int, n as int).skip(2) =~= s@.subrange(i + 2, n as int));
        i += 2;
    }
    crate::text::copy_range(s, i, n)
}

/// What loading a lookup row gives: `Ok(None)` for a row whose status is not `exact`
/// (in any case), else the reference variant, its position from `ref_pos` or, failing
/// that, `query_pos`, and its rsid from `query_rsid` trimmed and stripped of `rs`.
pub open spec fn lookup_row_spec(
    query_rsid: Seq<char>,
    query_pos: Seq<char>,
    ref_pos: Seq<char>,
    status: Seq<char>,
) -> Result<Option<(i64, i64)>, LookupError> {
    if lowercase_spec(status) != "exact"@ {
        Ok(None)
    } else {
        let pos = match parse_i64_spec(ref_pos) {
            Some(p) => Some(p),
            None => parse_i64_spec(query_pos),
        };
        match pos {
            None => Err(LookupError::BadPosition),
            Some(p) => match parse_i64_spec(strip_rs(trim_spec(query_rsid))) {
                None => Err(LookupError::BadRsid),
                Some(id) => Ok(Some((id, p))),
            },
        }
    }
}

impl LookupRow {
    /// Turns a lookup row into a reference variant; rows that are not exact matches
    /// are skipped.
    pub fn to_reference(self) -> (r: Result<Option<ReferenceVariant>, LookupError>)
        ensures
            match lookup_row_spec(self.query_rsid@, self.query_pos@, self.ref_pos@, self.status@) {
                Ok(None) => r == Ok::<Option<ReferenceVariant>, LookupError>(None),
                Err(e) => r == Err::<Option<ReferenceVariant>, LookupError>(e),
                Ok(Some((id, p))) => r matches Ok(Some(v)) && v.rsid == id && v.position == p
                    && v.chromosome@ == self.query_chrom@ && v.reference@ == self.reference@
                    && v.alternates@ == self.alt@,
            },
    {
        let status = lowercase(chars_of(self.status.as_str()).as_slice());
        let exact = chars_of("exact");
        if !crate::genotype::same_chars(status.as_slice(), exact.as_slice()) {
            return Ok(None);
        }
        let pos = match parse_i64(chars_of(self.ref_pos.as_str()).as_slice()) {
            Some(p) => p,
            None => match parse_i64(chars_of(self.query_pos.as_str()).as_slice()) {
                Some(p) => p,
                None => {
                    return Err(LookupError::BadPosition);
                },
            },
        };
        let id_text = strip_rs_prefix(trim(chars_of(self.query_rsid.as_str()).as_slice()).as_slice());
        let rsid = match parse_i64(id_text.as_slice()) {
            Some(id) => id,
            None => {
                return Err(LookupError::BadRsid);
            },
        };
        Ok(
            Some(
                ReferenceVariant {
                    rsid,
                    chromosome: self.query_chrom,
                    position: pos,
                    reference: self.reference,
                    alternates: self.alt,
                },
            ),
        )
    }
}

} // verus!
