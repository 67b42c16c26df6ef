use vstd::prelude::*;

use crate::text::{
    chars_of, is_space, is_space_spec, lead_spaces, normalize_name, normalize_spec, parse_i64,
    parse_i64_spec, strip_comment_spec, strip_inline_comment, trim, trim_spec, trim_start_spec,
};

verus! {

broadcast use vstd::string::group_string_axioms;

/// How many leading lines of a file the delimiter sniffer looks at.
pub const LOOKAHEAD_LINES: usize = 2048;

/// The field separator of one file, chosen once from its first substantive line.
#[derive(Debug, Clone, Copy, PartialEq, Eq, Structural)]
pub enum Delimiter {
    Tab,
    Comma,
    Space,
}

/// The rows of a table, as sequences of characters.
pub open spec fn view_rows(v: Seq<Vec<char>>) -> Seq<Seq<char>> {
    v.map_values(|x: Vec<char>| x@)
}

proof fn lemma_view_rows_push(v: Seq<Vec<char>>, x: Vec<char>)
    ensures
        view_rows(v.push(x)) == view_rows(v).push(x@),
{
    assert(view_rows(v.push(x)) =~= view_rows(v).push(x@));
}

pub open spec fn contains_char(s: Seq<char>, c: char) -> bool {
    exists|i: int| 0 <= i < s.len() && s[i] == c
}

/// A trimmed line that starts with a comment marker (`#` or `//`).
pub open spec fn is_comment_spec(t: Seq<char>) -> bool {
    (t.len() >= 1 && t[0] == '#') || (t.len() >= 2 && t[0] == '/' && t[1] == '/')
}

/// Tab splitting from position `i`, with the finished fields and the field being read.
pub open spec fn tab_split_from(s: Seq<char>, i: int, fields: Seq<Seq<char>>, cur: Seq<char>) -> Seq<
    Seq<char>,
>
    decreases s.len() - i,
{
    if i >= s.len() {
        fields.push(trim_spec(cur))
    } else if s[i] == '\t' {
        tab_split_from(s, i + 1, fields.push(trim_spec(cur)), Seq::empty())
    } else {
        tab_split_from(s, i + 1, fields, cur.push(s[i]))
    }
}

/// The tab-separated fields of `s`, each trimmed.
pub open spec fn tab_fields(s: Seq<char>) -> Seq<Seq<char>> {
    tab_split_from(s, 0, Seq::empty(), Seq::empty())
}

/// Whitespace splitting from position `i`: maximal runs of non-whitespace characters.
pub open spec fn space_split_from(
    s: Seq<char>,
    i: int,
    fields: Seq<Seq<char>>,
    cur: Seq<char>,
) -> Seq<Seq<char>>
    decreases s.len() - i,
{
    if i >= s.len() {
        if cur.len() > 0 {
            fields.push(cur)
        } else {
            fields
        }
    } else if is_space_spec(s[i]) {
        if cur.len() > 0 {
            space_split_from(s, i + 1, fields.push(cur), Seq::empty())
        } else {
            space_split_from(s, i + 1, fields, Seq::empty())
        }
    } else {
        space_split_from(s, i + 1, fields, cur.push(s[i]))
    }
}

/// The whitespace-separated tokens of `s`, as `str::split_whitespace` gives them.
pub open spec fn space_fields(s: Seq<char>) -> Seq<Seq<char>> {
    space_split_from(s, 0, Seq::empty(), Seq::empty())
}

/// CSV splitting from position `i`: commas outside double quotes separate fields, a
/// quote toggles quoting, and a doubled quote inside quotes is one literal quote.
pub open spec fn csv_split_from(
    s: Seq<char>,
    i: int,
    fields: Seq<Seq<char>>,
    cur: Seq<char>,
    quoted: bool,
) -> Seq<Seq<char>>
    decreases s.len() - i,
{
    if i >= s.len() || i < 0 {
        fields.push(trim_spec(cur))
    } else if s[i] == '"' {
        if quoted && i + 1 < s.len() && s[i + 1] == '"' {
            csv_split_from(s, i + 2, fields, cur.push('"'), quoted)
        } else {
            csv_split_from(s, i + 1, fields, cur, !quoted)
        }
    } else if s[i] == ',' && !quoted {
        csv_split_from(s, i + 1, fields.push(trim_spec(cur)), Seq::empty(), quoted)
    } else {
        csv_split_from(s, i + 1, fields, cur.push(s[i]), quoted)
    }
}

/// The fields of one CSV line, each trimmed.
pub open spec fn csv_fields(s: Seq<char>) -> Seq<Seq<char>> {
    csv_split_from(s, 0, Seq::empty(), Seq::empty(), false)
}

/// The fields of `s` under a delimiter.
pub open spec fn fields_spec(d: Delimiter, s: Seq<char>) -> Seq<Seq<char>> {
    match d {
        Delimiter::Tab => tab_fields(s),
        Delimiter::Comma => csv_fields(s),
        Delimiter::Space => space_fields(s),
    }
}

fn split_tab_line(line: &[char]) -> (r: Vec<Vec<char>>)
    ensures
        view_rows(r@) == tab_fields(line@),
{
    let mut fields: Vec<Vec<char>> = Vec::new();
    let mut cur: Vec<char> = Vec::new();
    let mut i: usize = 0;
    assert(view_rows(fields@) =~= Seq::empty());
    assert(cur@ =~= Seq::empty());
    while i < line.len()
        invariant
            i <= line@.len(),
            tab_fields(line@) == tab_split_from(line@, i as int, view_rows(fields@), cur@),
        decreases line.len() - i,
    {
        let c = line[i];
        if c == '\t' {
            let t = trim(cur.as_slice());
            proof {
                lemma_view_rows_push(fields@, t);
            }
            fields.push(t);
            cur = Vec::new();
        } else {
            cur.push(c);
        }
        i += 1;
    }
    let t = trim(cur.as_slice());
    proof {
        lemma_view_rows_push(fields@, t);
    }
    fields.push(t);
    fields
}

fn split_space_line(line: &[char]) -> (r: Vec<Vec<char>>)
    ensures
        view_rows(r@) == space_fields(line@),
{
    let mut fields: Vec<Vec<char>> = Vec::new();
    let mut cur: Vec<char> = Vec::new();
    let mut i: usize = 0;
    assert(view_rows(fields@) =~= Seq::empty());
    assert(cur@ =~= Seq::empty());
    while i < line.len()
        invariant
            i <= line@.len(),
            space_fields(line@) == space_split_from(line@, i as int, view_rows(fields@), cur@),
        decreases line.len() - i,
    {
        let c = line[i];
        if is_space(c) {
            if cur.len() > 0 {
                proof {
                    lemma_view_rows_push(fields@, cur);
                }
                fields.push(cur);
                cur = Vec::new();
            } else {
                assert(cur@ =~= Seq::empty());
            }
        } else {
            cur.push(c);
        }
        i += 1;
    }
    if cur.len() > 0 {
        proof {
            lemma_view_rows_push(fields@, cur);
        }
        fields.push(cur);
    }
    fields
}

/// Splits one CSV line into trimmed fields, honouring double-quoted fields.
pub fn split_csv_line(line: &[char]) -> (r: Vec<Vec<char>>)
    ensures
        view_rows(r@) == csv_fields(line@),
{
    let mut fields: Vec<Vec<char>> = Vec::new();
    let mut cur: Vec<char> = Vec::new();
    let mut quoted = false;
    let mut i: usize = 0;
    assert(view_rows(fields@) =~= Seq::empty());
    assert(cur@ =~= Seq::empty());
    while i < line.len()
        invariant
            i <= line@.len(),
            csv_fields(line@) == csv_split_from(
                line@,
                i as int,
                view_rows(fields@),
                cur@,
                quoted,
            ),
        decreases line.len() - i,
    {
        let c = line[i];
        if c == '"' {
            if quoted && i + 1 < line.len() && line[i + 1] == '"' {
                cur.push('"');
                i += 2;
            } else {
                quoted = !quoted;
                i += 1;
            }
        } else if c == ',' && !quoted {
            let t = trim(cur.as_slice());
            proof {
                lemma_view_rows_push(fields@, t);
            }
            fields.push(t);
            cur = Vec::new();
            i += 1;
        } else {
            cur.push(c);
            i += 1;
        }
    }
    let t = trim(cur.as_slice());
    proof {
        lemma_view_rows_push(fields@, t);
    }
    fields.push(t);
    fields
}

impl LineParser {
    /// Splits a line into fields under the file's delimiter.
    pub fn parse_fields(&self, line: &[char]) -> (r: Vec<Vec<char>>)
        ensures
            view_rows(r@) == fields_spec(self.delimiter, line@),
    {
        match self.delimiter {
            Delimiter::Tab => split_tab_line(line),
            Delimiter::Comma => split_csv_line(line),
            Delimiter::Space => split_space_line(line),
        }
    }
}

pub fn same_chars(a: &[char], b: &[char]) -> (r: bool)
    ensures
        r == (a@ == b@),
{
    if a.len() != b.len() {
        return false;
    }
    let mut i: usize = 0;
    while i < a.len()
        invariant
            i <= a@.len() == b@.len(),
            forall|k: int| 0 <= k < i ==> a@[k] == b@[k],
        decreases a.len() - i,
    {
        if a[i] != b[i] {
            return false;
        }
        i += 1;
    }
    assert(a@ =~= b@);
    true
}

fn has_char(s: &[char], c: char) -> (r: bool)
    ensures
        r == contains_char(s@, c),
{
    let mut i: usize = 0;
    while i < s.len()
        invariant
            i <= s@.len(),
            forall|k: int| 0 <= k < i ==> s@[k] != c,
        decreases s.len() - i,
    {
        if s[i] == c {
            return true;
        }
        i += 1;
    }
    false
}

fn is_comment(t: &[char]) -> (r: bool)
    ensures
        r == is_comment_spec(t@),
{
    (t.len() >= 1 && t[0] == '#') || (t.len() >= 2 && t[0] == '/' && t[1] == '/')
}

/// A line that is neither blank nor a comment.
pub open spec fn substantive(line: Seq<char>) -> bool {
    let t = trim_spec(line);
    t.len() > 0 && !is_comment_spec(t)
}

/// The delimiter chosen from lines `i..`: the first substantive line alone decides, by
/// tab, then comma, then more than one whitespace-separated token, and is otherwise tab;
/// with no substantive line the file is tab-separated.
///
/// A known gap of this heuristic: a file whose first substantive line holds a single
/// token is read as tab-separated even when the lines after it are separated by spaces.
/// It is kept on purpose; changing it is a product decision, not a fix.
pub open spec fn detect_from(lines: Seq<Seq<char>>, i: int) -> Delimiter
    decreases lines.len() - i,
{
    if i >= lines.len() || i < 0 {
        Delimiter::Tab
    } else if !substantive(lines[i]) {
        detect_from(lines, i + 1)
    } else if contains_char(lines[i], '\t') {
        Delimiter::Tab
    } else if contains_char(lines[i], ',') {
        Delimiter::Comma
    } else if space_fields(trim_spec(lines[i])).len() > 1 {
        Delimiter::Space
    } else {
        Delimiter::Tab
    }
}

pub open spec fn detect_spec(lines: Seq<Seq<char>>) -> Delimiter {
    detect_from(lines, 0)
}

/// Picks the delimiter of a file from its first lines.
pub fn detect_delimiter(lines: &[Vec<char>]) -> (r: Delimiter)
    ensures
        r == detect_spec(view_rows(lines@)),
{
    let ghost ls = view_rows(lines@);
    let mut i: usize = 0;
    while i < lines.len()
        invariant
            i <= lines@.len(),
            ls == view_rows(lines@),
            detect_spec(ls) == detect_from(ls, i as int),
        decreases lines.len() - i,
    {
        let line = &lines[i];
        assert(ls[i as int] == line@);
        let t = trim(line.as_slice());
        if t.len() > 0 && !is_comment(t.as_slice()) {
            if has_char(line.as_slice(), '\t') {
                return Delimiter::Tab;
            }
            if has_char(line.as_slice(), ',') {
                return Delimiter::Comma;
            }
            let tokens = split_space_line(t.as_slice());
            if tokens.len() > 1 {
                return Delimiter::Space;
            }
            return Delimiter::Tab;
        }
        i += 1;
    }
    Delimiter::Tab
}

/// A semantic column role.
#[derive(Debug, Clone, Copy, PartialEq, Eq, Structural)]
pub enum Field {
    Rsid,
    Chromosome,
    Position,
    Genotype,
    Allele1,
    Allele2,
}

/// The recognised names of each column role, in the order lookups try them.
pub open spec fn aliases_spec(f: Field) -> Seq<Seq<char>> {
    match f {
        Field::Rsid => seq!["rsid"@, "name"@, "snp"@, "marker"@, "id"@, "markername"@],
        Field::Chromosome => seq!["chromosome"@, "chr"@, "chrom"@],
        Field::Position => seq!["position"@, "pos"@, "coordinate"@, "basepairposition"@, "basepair"@],
        Field::Genotype => seq![
            "genotype"@,
            "gt"@,
            "result"@,
            "results"@,
            "result1"@,
            "call"@,
            "calls"@,
            "yourcode"@,
            "code"@,
            "genotypevalue"@,
            "variation"@,
        ],
        Field::Allele1 => seq!["allele1"@, "allelea"@, "allele_a"@, "allele1top"@],
        Field::Allele2 => seq!["allele2"@, "alleleb"@, "allele_b"@, "allele2top"@],
    }
}

/// The alias table: for each column role the names that identify it.
pub struct AliasTable {
    pub rsid: Vec<Vec<char>>,
    pub chromosome: Vec<Vec<char>>,
    pub position: Vec<Vec<char>>,
    pub genotype: Vec<Vec<char>>,
    pub allele1: Vec<Vec<char>>,
    pub allele2: Vec<Vec<char>>,
}

fn names(items: &[&str]) -> (r: Vec<Vec<char>>)
    ensures
        r@.len() == items@.len(),
        forall|i: int| 0 <= i < items@.len() ==> #[trigger] r@[i]@ == items@[i]@,
{
    let mut out: Vec<Vec<char>> = Vec::new();
    let mut i: usize = 0;
    while i < items.len()
        invariant
            i <= items@.len(),
            out@.len() == i,
            forall|k: int| 0 <= k < i ==> #[trigger] out@[k]@ == items@[k]@,
        decreases items.len() - i,
    {
        out.push(chars_of(items[i]));
        i += 1;
    }
    out
}

impl AliasTable {
    pub open spec fn aliases_view(&self, f: Field) -> Seq<Seq<char>> {
        match f {
            Field::Rsid => view_rows(self.rsid@),
            Field::Chromosome => view_rows(self.chromosome@),
            Field::Position => view_rows(self.position@),
            Field::Genotype => view_rows(self.genotype@),
            Field::Allele1 => view_rows(self.allele1@),
            Field::Allele2 => view_rows(self.allele2@),
        }
    }

    pub open spec fn wf(&self) -> bool {
        forall|f: Field| #[trigger] self.aliases_view(f) == aliases_spec(f)
    }

    pub fn new() -> (r: Self)
        ensures
            r.wf(),
    {
        let r = AliasTable {
            rsid: names(&["rsid", "name", "snp", "marker", "id", "markername"]),
            chromosome: names(&["chromosome", "chr", "chrom"]),
            position: names(&["position", "pos", "coordinate", "basepairposition", "basepair"]),
            genotype: names(
                &[
                    "genotype",
                    "gt",
                    "result",
                    "results",
                    "result1",
                    "call",
                    "calls",
                    "yourcode",
                    "code",
                    "genotypevalue",
                    "variation",
                ],
            ),
            allele1: names(&["allele1", "allelea", "allele_a", "allele1top"]),
            allele2: names(&["allele2", "alleleb", "allele_b", "allele2top"]),
        };
        assert forall|f: Field| #[trigger] r.aliases_view(f) == aliases_spec(f) by {
            assert(r.aliases_view(f) =~= aliases_spec(f));
        }
        r
    }

    /// The names that identify a column role.
    pub fn aliases_for(&self, f: Field) -> (r: &Vec<Vec<char>>)
        ensures
            view_rows(r@) == self.aliases_view(f),
    {
        match f {
            Field::Rsid => &self.rsid,
            Field::Chromosome => &self.chromosome,
            Field::Position => &self.position,
            Field::Genotype => &self.genotype,
            Field::Allele1 => &self.allele1,
            Field::Allele2 => &self.allele2,
        }
    }
}

pub open spec fn opt_view(o: Option<Vec<char>>) -> Option<Seq<char>> {
    match o {
        Some(v) => Some(v@),
        None => None,
    }
}

/// The value stored under `key` among the first `n` cells of a row; when a key occurs
/// twice the later cell wins.
pub open spec fn value_for(keys: Seq<Seq<char>>, vals: Seq<Seq<char>>, key: Seq<char>, n: int) -> Option<
    Seq<char>,
>
    decreases n,
{
    if n <= 0 {
        None
    } else if keys[n - 1] == key {
        Some(vals[n - 1])
    } else {
        value_for(keys, vals, key, n - 1)
    }
}

/// The first non-empty value found under the aliases `j..`, tried in order.
pub open spec fn lookup_from(
    keys: Seq<Seq<char>>,
    vals: Seq<Seq<char>>,
    aliases: Seq<Seq<char>>,
    j: int,
) -> Option<Seq<char>>
    decreases aliases.len() - j,
{
    if j >= aliases.len() || j < 0 {
        None
    } else {
        match value_for(keys, vals, normalize_spec(aliases[j]), keys.len() as int) {
            Some(v) => if v.len() > 0 {
                Some(v)
            } else {
                lookup_from(keys, vals, aliases, j + 1)
            },
            None => lookup_from(keys, vals, aliases, j + 1),
        }
    }
}

fn find_key(keys: &[Vec<char>], key: &[char]) -> (r: Option<usize>)
    ensures
        match r {
            Some(i) => i < keys@.len() && value_for(
                view_rows(keys@),
                view_rows(keys@),
                key@,
                keys@.len() as int,
            ) == Some(keys@[i as int]@),
            None => value_for(view_rows(keys@), view_rows(keys@), key@, keys@.len() as int)
                is None,
        },
        forall|vals: Seq<Seq<char>>|
            match r {
                Some(i) => #[trigger] value_for(
                    view_rows(keys@),
                    vals,
                    key@,
                    keys@.len() as int,
                ) == Some(vals[i as int]),
                None => value_for(view_rows(keys@), vals, key@, keys@.len() as int) is None,
            },
{
    let ghost ks = view_rows(keys@);
    let mut j: usize = keys.len();
    while j > 0
        invariant
            j <= keys@.len(),
            ks == view_rows(keys@),
            forall|vals: Seq<Seq<char>>| #[trigger]
                value_for(ks, vals, key@, keys@.len() as int) == value_for(ks, vals, key@, j as int),
        decreases j,
    {
        assert(ks[j - 1] == keys@[j - 1]@);
        if same_chars(keys[j - 1].as_slice(), key) {
            return Some(j - 1);
        }
        j -= 1;
    }
    None
}

impl LineParser {
    /// The value of a column role in a row given as normalized column names and their
    /// cleaned values: the first alias, in table order, whose column holds a non-empty
    /// value; when a name occurs twice the later column wins.
    pub fn lookup(&self, keys: &[Vec<char>], vals: &[Vec<char>], field: Field) -> (r: Option<
        Vec<char>,
    >)
        requires
            self.wf(),
            keys@.len() == vals@.len(),
        ensures
            opt_view(r) == lookup_from(view_rows(keys@), view_rows(vals@), aliases_spec(field), 0),
    {
        let aliases = self.aliases.aliases_for(field);
        assert(self.aliases.aliases_view(field) == aliases_spec(field));
        let ghost ks = view_rows(keys@);
        let ghost vs = view_rows(vals@);
        let ghost al = view_rows(aliases@);
        let mut j: usize = 0;
        while j < aliases.len()
            invariant
                j <= aliases@.len(),
                keys@.len() == vals@.len(),
                ks == view_rows(keys@),
                vs == view_rows(vals@),
                al == view_rows(aliases@),
                al == aliases_spec(field),
                lookup_from(ks, vs, al, 0) == lookup_from(ks, vs, al, j as int),
            decreases aliases.len() - j,
        {
            let key = normalize_name(aliases[j].as_slice());
            assert(al[j as int] == aliases@[j as int]@);
            let found = find_key(keys, key.as_slice());
            assert(ks.len() == keys@.len());
            match found {
                Some(i) => {
                    assert(value_for(ks, vs, key@, ks.len() as int) == Some(vs[i as int]));
                    assert(vs[i as int] == vals@[i as int]@);
                    if vals[i].len() > 0 {
                        return Some(vals[i].clone());
                    }
                },
                None => {
                    assert(value_for(ks, vs, key@, ks.len() as int) is None);
                },
            }
            j += 1;
        }
        None
    }
}

/// Why a row was skipped.
#[derive(Debug, Clone, Copy, PartialEq, Eq, Structural)]
pub enum SkipReason {
    MissingRsid,
    MissingChromosome,
    BadPosition,
    MissingGenotype,
}

/// One variant observation extracted from a row. A genotype or allele that the row
/// does not give is empty.
#[derive(Debug, Clone)]
pub struct VariantRecord {
    pub rsid: Vec<char>,
    pub chromosome: Vec<char>,
    pub position: i64,
    pub genotype: Vec<char>,
    pub allele1: Vec<char>,
    pub allele2: Vec<char>,
}

pub struct VariantSpec {
    pub rsid: Seq<char>,
    pub chromosome: Seq<char>,
    pub position: i64,
    pub genotype: Seq<char>,
    pub allele1: Seq<char>,
    pub allele2: Seq<char>,
}

impl View for VariantRecord {
    type V = VariantSpec;

    open spec fn view(&self) -> VariantSpec {
        VariantSpec {
            rsid: self.rsid@,
            chromosome: self.chromosome@,
            position: self.position,
            genotype: self.genotype@,
            allele1: self.allele1@,
            allele2: self.allele2@,
        }
    }
}

/// The kind of outcome of one line.
#[derive(Debug, Clone, Copy, PartialEq, Eq, Structural)]
pub enum ConsumeOutcome {
    Parsed,
    Skipped,
    Ignored,
}

/// The outcome of one line: a variant, a rejected row, or a line that is no row.
#[derive(Debug, Clone)]
pub enum RowOutcome {
    Parsed(VariantRecord),
    Skipped(SkipReason),
    Ignored,
}

pub enum RowSpec {
    Parsed(VariantSpec),
    Skipped(SkipReason),
    Ignored,
}

impl View for RowOutcome {
    type V = RowSpec;

    open spec fn view(&self) -> RowSpec {
        match self {
            RowOutcome::Parsed(v) => RowSpec::Parsed(v@),
            RowOutcome::Skipped(r) => RowSpec::Skipped(*r),
            RowOutcome::Ignored => RowSpec::Ignored,
        }
    }
}

pub open spec fn kind_spec(r: RowSpec) -> ConsumeOutcome {
    match r {
        RowSpec::Parsed(_) => ConsumeOutcome::Parsed,
        RowSpec::Skipped(_) => ConsumeOutcome::Skipped,
        RowSpec::Ignored => ConsumeOutcome::Ignored,
    }
}

impl RowOutcome {
    pub fn kind(&self) -> (r: ConsumeOutcome)
        ensures
            r == kind_spec(self@),
    {
        match self {
            RowOutcome::Parsed(_) => ConsumeOutcome::Parsed,
            RowOutcome::Skipped(_) => ConsumeOutcome::Skipped,
            RowOutcome::Ignored => ConsumeOutcome::Ignored,
        }
    }
}

/// The normalized column names of the first `n` header cells.
pub open spec fn row_keys(header: Seq<Seq<char>>, n: int) -> Seq<Seq<char>> {
    Seq::new(n as nat, |i: int| normalize_spec(header[i]))
}

/// The first `n` cells of a row, inline comments removed.
pub open spec fn row_values(fields: Seq<Seq<char>>, n: int) -> Seq<Seq<char>> {
    Seq::new(n as nat, |i: int| strip_comment_spec(fields[i]))
}

pub open spec fn min_len(a: int, b: int) -> int {
    if a < b {
        a
    } else {
        b
    }
}

/// The value of a column role in a row read under `header`.
pub open spec fn field_value(header: Seq<Seq<char>>, fields: Seq<Seq<char>>, f: Field) -> Option<
    Seq<char>,
> {
    let n = min_len(header.len() as int, fields.len() as int);
    lookup_from(row_keys(header, n), row_values(fields, n), aliases_spec(f), 0)
}

pub open spec fn or_empty(o: Option<Seq<char>>) -> Seq<char> {
    match o {
        Some(v) => v,
        None => Seq::empty(),
    }
}

/// Classification of a data row under a resolved header.
pub open spec fn classify_spec(header: Seq<Seq<char>>, fields: Seq<Seq<char>>) -> RowSpec {
    let rsid = field_value(header, fields, Field::Rsid);
    let chromosome = field_value(header, fields, Field::Chromosome);
    let position = field_value(header, fields, Field::Position);
    let genotype = field_value(header, fields, Field::Genotype);
    let allele1 = or_empty(field_value(header, fields, Field::Allele1));
    let allele2 = or_empty(field_value(header, fields, Field::Allele2));
    if rsid is None {
        RowSpec::Skipped(SkipReason::MissingRsid)
    } else if chromosome is None {
        RowSpec::Skipped(SkipReason::MissingChromosome)
    } else if position is None || parse_i64_spec(position->0) is None {
        RowSpec::Skipped(SkipReason::BadPosition)
    } else if genotype is None && allele1.len() == 0 && allele2.len() == 0 {
        RowSpec::Skipped(SkipReason::MissingGenotype)
    } else {
        RowSpec::Parsed(
            VariantSpec {
                rsid: rsid->0,
                chromosome: chromosome->0,
                position: parse_i64_spec(position->0)->0,
                genotype: or_empty(genotype),
                allele1,
                allele2,
            },
        )
    }
}

fn unwrap_or_empty(o: Option<Vec<char>>) -> (r: Vec<char>)
    ensures
        r@ == or_empty(opt_view(o)),
{
    match o {
        Some(v) => v,
        None => Vec::new(),
    }
}

impl LineParser {
    /// Classifies a data row under a resolved header.
    pub fn classify_fields(&self, header: &[Vec<char>], fields: &[Vec<char>]) -> (r: RowOutcome)
        requires
            self.wf(),
        ensures
            r@ == classify_spec(view_rows(header@), view_rows(fields@)),
    {
        let ghost hv = view_rows(header@);
        let ghost fv = view_rows(fields@);
        let n: usize = if header.len() < fields.len() {
            header.len()
        } else {
            fields.len()
        };
        let mut keys: Vec<Vec<char>> = Vec::new();
        let mut vals: Vec<Vec<char>> = Vec::new();
        let mut i: usize = 0;
        while i < n
            invariant
                n <= header@.len(),
                n <= fields@.len(),
                i <= n,
                hv == view_rows(header@),
                fv == view_rows(fields@),
                view_rows(keys@) == row_keys(hv, i as int),
                view_rows(vals@) == row_values(fv, i as int),
            decreases n - i,
        {
            let k = normalize_name(header[i].as_slice());
            let v = strip_inline_comment(fields[i].as_slice());
            proof {
                lemma_view_rows_push(keys@, k);
                lemma_view_rows_push(vals@, v);
            }
            keys.push(k);
            vals.push(v);
            assert(view_rows(keys@) =~= row_keys(hv, i + 1));
            assert(view_rows(vals@) =~= row_values(fv, i + 1));
            i += 1;
        }
        assert(n == min_len(hv.len() as int, fv.len() as int));
        let rsid = self.lookup(keys.as_slice(), vals.as_slice(), Field::Rsid);
        let chromosome = self.lookup(keys.as_slice(), vals.as_slice(), Field::Chromosome);
        let position = self.lookup(keys.as_slice(), vals.as_slice(), Field::Position);
        let genotype = self.lookup(keys.as_slice(), vals.as_slice(), Field::Genotype);
        let allele1 = self.lookup(keys.as_slice(), vals.as_slice(), Field::Allele1);
        let allele2 = self.lookup(keys.as_slice(), vals.as_slice(), Field::Allele2);
        let rsid = match rsid {
            Some(v) => v,
            None => {
                return RowOutcome::Skipped(SkipReason::MissingRsid);
            },
        };
        let chromosome = match chromosome {
            Some(v) => v,
            None => {
                return RowOutcome::Skipped(SkipReason::MissingChromosome);
            },
        };
        let position = match position {
            Some(v) => match parse_i64(v.as_slice()) {
                Some(p) => p,
                None => {
                    return RowOutcome::Skipped(SkipReason::BadPosition);
                },
            },
            None => {
                return RowOutcome::Skipped(SkipReason::BadPosition);
            },
        };
        let has_genotype = genotype.is_some();
        let genotype = unwrap_or_empty(genotype);
        let allele1 = unwrap_or_empty(allele1);
        let allele2 = unwrap_or_empty(allele2);
        if !has_genotype && allele1.len() == 0 && allele2.len() == 0 {
            return RowOutcome::Skipped(SkipReason::MissingGenotype);
        }
        RowOutcome::Parsed(VariantRecord { rsid, chromosome, position, genotype, allele1, allele2 })
    }
}

pub open spec fn digit_char(d: nat) -> char {
    if d == 0 {
        '0'
    } else if d == 1 {
        '1'
    } else if d == 2 {
        '2'
    } else if d == 3 {
        '3'
    } else if d == 4 {
        '4'
    } else if d == 5 {
        '5'
    } else if d == 6 {
        '6'
    } else if d == 7 {
        '7'
    } else if d == 8 {
        '8'
    } else {
        '9'
    }
}

/// The decimal digits of `n`.
pub open spec fn decimal_spec(n: nat) -> Seq<char>
    decreases n,
{
    if n < 10 {
        seq![digit_char(n)]
    } else {
        decimal_spec(n / 10).push(digit_char(n % 10))
    }
}

fn digit(d: usize) -> (r: char)
    requires
        d < 10,
    ensures
        r == digit_char(d as nat),
{
    if d == 0 {
        '0'
    } else if d == 1 {
        '1'
    } else if d == 2 {
        '2'
    } else if d == 3 {
        '3'
    } else if d == 4 {
        '4'
    } else if d == 5 {
        '5'
    } else if d == 6 {
        '6'
    } else if d == 7 {
        '7'
    } else if d == 8 {
        '8'
    } else {
        '9'
    }
}

fn decimal(n: usize) -> (r: Vec<char>)
    ensures
        r@ == decimal_spec(n as nat),
    decreases n,
{
    if n < 10 {
        let mut v: Vec<char> = Vec::new();
        v.push(digit(n));
        assert(v@ =~= seq![digit_char(n as nat)]);
        v
    } else {
        let mut v = decimal(n / 10);
        v.push(digit(n % 10));
        v
    }
}

/// The name of column `i` of a synthesized header.
pub open spec fn default_name(i: nat) -> Seq<char> {
    if i == 0 {
        "rsid"@
    } else if i == 1 {
        "chromosome"@
    } else if i == 2 {
        "position"@
    } else if i == 3 {
        "genotype"@
    } else {
        "extra_"@ + decimal_spec((i - 4) as nat)
    }
}

/// A synthesized header of `n` columns: `rsid, chromosome, position, genotype`, cut to
/// `n`, then `extra_0, extra_1, ...`.
pub open spec fn default_header_spec(n: nat) -> Seq<Seq<char>> {
    Seq::new(n, |i: int| default_name(i as nat))
}

impl LineParser {
    /// Builds the positional header used when a file has none.
    pub fn default_header(&self, field_count: usize) -> (r: Vec<Vec<char>>)
        ensures
            view_rows(r@) == default_header_spec(field_count as nat),
    {
        let mut out: Vec<Vec<char>> = Vec::new();
        let mut i: usize = 0;
        while i < field_count
            invariant
                i <= field_count,
                view_rows(out@) == default_header_spec(i as nat),
            decreases field_count - i,
        {
            let name = if i == 0 {
                chars_of("rsid")
            } else if i == 1 {
                chars_of("chromosome")
            } else if i == 2 {
                chars_of("position")
            } else if i == 3 {
                chars_of("genotype")
            } else {
                let mut p = chars_of("extra_");
                let mut d = decimal(i - 4);
                p.append(&mut d);
                p
            };
            proof {
                lemma_view_rows_push(out@, name);
            }
            out.push(name);
            assert(view_rows(out@) =~= default_header_spec((i + 1) as nat));
            i += 1;
        }
        assert(view_rows(out@) =~= default_header_spec(field_count as nat));
        out
    }
}

/// A row whose first cell, normalized, is one of the `rsid` aliases.
pub open spec fn looks_like_header_spec(fields: Seq<Seq<char>>) -> bool {
    fields.len() > 0 && aliases_spec(Field::Rsid).contains(normalize_spec(fields[0]))
}

impl LineParser {
    /// Whether a row is a header: its first cell names the `rsid` column.
    pub fn looks_like_header(&self, fields: &[Vec<char>]) -> (r: bool)
        requires
            self.wf(),
        ensures
            r == looks_like_header_spec(view_rows(fields@)),
    {
        if fields.len() == 0 {
            return false;
        }
        let first = normalize_name(fields[0].as_slice());
        assert(view_rows(fields@)[0] == fields@[0]@);
        let names = self.aliases.aliases_for(Field::Rsid);
        let ghost al = aliases_spec(Field::Rsid);
        assert(self.aliases.aliases_view(Field::Rsid) == al);
        let mut j: usize = 0;
        while j < names.len()
            invariant
                j <= names@.len(),
                view_rows(names@) == al,
                al == aliases_spec(Field::Rsid),
                fields@.len() > 0,
                first@ == normalize_spec(view_rows(fields@)[0]),
                forall|k: int| 0 <= k < j ==> al[k] != first@,
            decreases names.len() - j,
        {
            assert(al[j as int] == names@[j as int]@);
            if same_chars(names[j].as_slice(), first.as_slice()) {
                assert(al[j as int] == first@);
                assert(al.len() == names@.len());
                assert(al.contains(first@));
                return true;
            }
            j += 1;
        }
        false
    }
}

/// `t` without its leading run of `#` markers.
pub open spec fn strip_hashes(t: Seq<char>) -> Seq<char>
    decreases t.len(),
{
    if t.len() > 0 && t[0] == '#' {
        strip_hashes(t.drop_first())
    } else {
        t
    }
}

/// `t` without its leading run of `//` markers.
pub open spec fn strip_slashes(t: Seq<char>) -> Seq<char>
    decreases t.len(),
{
    if t.len() >= 2 && t[0] == '/' && t[1] == '/' {
        strip_slashes(t.skip(2))
    } else {
        t
    }
}

/// The text of a comment line after its markers, trimmed.
pub open spec fn comment_body_spec(t: Seq<char>) -> Seq<char> {
    if t.len() > 0 && t[0] == '#' {
        trim_spec(strip_hashes(t))
    } else {
        trim_spec(strip_slashes(t))
    }
}

fn comment_body(t: &[char]) -> (r: Vec<char>)
    ensures
        r@ == comment_body_spec(t@),
{
    let n = t.len();
    let mut i: usize = 0;
    assert(t@.subrange(0, n as int) =~= t@);
    if n > 0 && t[0] == '#' {
        while i < n && t[i] == '#'
            invariant
                i <= n == t@.len(),
                strip_hashes(t@) == strip_hashes(t@.subrange(i as int, n as int)),
            decreases n - i,
        {
            assert(t@.subrange(i as int, n as int).drop_first() =~= t@.subrange(i + 1, n as int));
            i += 1;
        }
    } else {
        while i < n && i + 1 < n && t[i] == '/' && t[i + 1] == '/'
            invariant
                i <= n == t@.len(),
                strip_slashes(t@) == strip_slashes(t@.subrange(i as int, n as int)),
            decreases n - i,
        {
            assert(t@.subrange(i as int, n as int).skip(2) =~= t@.subrange(i + 2, n as int));
            i += 2;
        }
    }
    let rest = copy_slice(t, i);
    trim(rest.as_slice())
}

fn copy_slice(t: &[char], from: usize) -> (r: Vec<char>)
    requires
        from <= t@.len(),
    ensures
        r@ == t@.subrange(from as int, t@.len() as int),
{
    crate::text::copy_range(t, from, t.len())
}

pub open spec fn opt_rows(o: Option<Vec<Vec<char>>>) -> Option<Seq<Seq<char>>> {
    match o {
        Some(v) => Some(view_rows(v@)),
        None => None,
    }
}

/// The state of the per-file line classifier.
pub struct ParserSpec {
    pub delimiter: Delimiter,
    pub header: Option<Seq<Seq<char>>>,
    pub comment_header: Option<Seq<Seq<char>>>,
}

/// The state before the first line of a file.
pub open spec fn fresh_parser(d: Delimiter) -> ParserSpec {
    ParserSpec { delimiter: d, header: None, comment_header: None }
}

/// One step of the classifier: the new state and the outcome of `line`.
pub open spec fn consume_spec(p: ParserSpec, line: Seq<char>) -> (ParserSpec, RowSpec) {
    let t = trim_spec(line);
    if t.len() == 0 {
        (p, RowSpec::Ignored)
    } else if is_comment_spec(t) {
        let body = comment_body_spec(t);
        if body.len() == 0 {
            (p, RowSpec::Ignored)
        } else {
            let f = fields_spec(p.delimiter, body);
            if looks_like_header_spec(f) {
                (ParserSpec { comment_header: Some(f), ..p }, RowSpec::Ignored)
            } else {
                (p, RowSpec::Ignored)
            }
        }
    } else {
        let f = fields_spec(p.delimiter, line);
        if f.len() == 0 {
            (p, RowSpec::Ignored)
        } else {
            match p.header {
                Some(h) => (p, classify_spec(h, f)),
                None => if looks_like_header_spec(f) {
                    (ParserSpec { header: Some(f), ..p }, RowSpec::Ignored)
                } else {
                    let h = match p.comment_header {
                        Some(c) => c,
                        None => default_header_spec(f.len()),
                    };
                    (
                        ParserSpec { delimiter: p.delimiter, header: Some(h), comment_header: None },
                        classify_spec(h, f),
                    )
                },
            }
        }
    }
}

/// Classifies the lines of one file, in order, from parser state `p`.
pub open spec fn run_spec(p: ParserSpec, lines: Seq<Seq<char>>) -> (ParserSpec, Seq<RowSpec>)
    decreases lines.len(),
{
    if lines.len() == 0 {
        (p, Seq::empty())
    } else {
        let prev = run_spec(p, lines.drop_last());
        let step = consume_spec(prev.0, lines.last());
        (step.0, prev.1.push(step.1))
    }
}

/// The per-file line classifier: delimiter, resolved header and comment-header candidate.
pub struct LineParser {
    pub delimiter: Delimiter,
    pub header: Option<Vec<Vec<char>>>,
    pub comment_header: Option<Vec<Vec<char>>>,
    pub aliases: AliasTable,
}

impl View for LineParser {
    type V = ParserSpec;

    open spec fn view(&self) -> ParserSpec {
        ParserSpec {
            delimiter: self.delimiter,
            header: opt_rows(self.header),
            comment_header: opt_rows(self.comment_header),
        }
    }
}

impl LineParser {
    pub open spec fn wf(&self) -> bool {
        self.aliases.wf()
    }

    pub fn new(delimiter: Delimiter) -> (r: Self)
        ensures
            r.wf(),
            r@ == fresh_parser(delimiter),
    {
        LineParser { delimiter, header: None, comment_header: None, aliases: AliasTable::new() }
    }

    /// Classifies one line of the file, resolving the header on the first data line.
    pub fn consume_line(&mut self, line: &[char]) -> (r: RowOutcome)
        requires
            old(self).wf(),
        ensures
            final(self).wf(),
            (final(self)@, r@) == consume_spec(old(self)@, line@),
    {
        let t = trim(line);
        if t.len() == 0 {
            return RowOutcome::Ignored;
        }
        if is_comment(t.as_slice()) {
            let body = comment_body(t.as_slice());
            if body.len() == 0 {
                return RowOutcome::Ignored;
            }
            let fields = self.parse_fields(body.as_slice());
            if self.looks_like_header(fields.as_slice()) {
                self.comment_header = Some(fields);
            }
            return RowOutcome::Ignored;
        }
        let fields = self.parse_fields(line);
        if fields.len() == 0 {
            return RowOutcome::Ignored;
        }
        if self.header.is_none() {
            if self.looks_like_header(fields.as_slice()) {
                self.header = Some(fields);
                return RowOutcome::Ignored;
            }
            let h = match self.comment_header.take() {
                Some(c) => c,
                None => self.default_header(fields.len()),
            };
            self.header = Some(h);
        }
        match &self.header {
            Some(h) => self.classify_fields(h.as_slice(), fields.as_slice()),
            None => RowOutcome::Ignored,
        }
    }
}

/// What is known of a file beyond its rows.
#[derive(Debug, Clone, Copy, PartialEq, Eq, Structural)]
pub struct FileMetadata {}

/// Per-file row counts.
#[derive(Debug, Clone, Copy, PartialEq, Eq, Structural)]
pub struct ParseSummary {
    pub variant_count: usize,
    pub skipped_rows: usize,
}

/// The result of parsing one file.
#[derive(Debug, Clone, Copy, PartialEq, Eq, Structural)]
pub struct ParsedFile {
    pub metadata: FileMetadata,
    pub summary: ParseSummary,
}

/// Why a file could not be parsed.
#[derive(Debug, Clone, Copy, PartialEq, Eq, Structural)]
pub enum FileError {
    /// The file holds no line at all.
    Empty,
}

pub open spec fn count_kind(outs: Seq<RowSpec>, k: ConsumeOutcome) -> nat
    decreases outs.len(),
{
    if outs.len() == 0 {
        0
    } else {
        count_kind(outs.drop_last(), k) + if kind_spec(outs.last()) == k {
            1nat
        } else {
            0nat
        }
    }
}

/// The variants among the outcomes, in order.
pub open spec fn parsed_records(outs: Seq<RowSpec>) -> Seq<VariantSpec>
    decreases outs.len(),
{
    if outs.len() == 0 {
        Seq::empty()
    } else {
        let prev = parsed_records(outs.drop_last());
        match outs.last() {
            RowSpec::Parsed(v) => prev.push(v),
            _ => prev,
        }
    }
}

pub open spec fn view_records(v: Seq<VariantRecord>) -> Seq<VariantSpec> {
    v.map_values(|x: VariantRecord| x@)
}

proof fn lemma_count_bound(outs: Seq<RowSpec>)
    ensures
        count_kind(outs, ConsumeOutcome::Parsed) + count_kind(outs, ConsumeOutcome::Skipped)
            <= outs.len(),
    decreases outs.len(),
{
    if outs.len() > 0 {
        lemma_count_bound(outs.drop_last());
    }
}

impl ParseSummary {
    pub fn new() -> (r: Self)
        ensures
            r.variant_count == 0,
            r.skipped_rows == 0,
    {
        ParseSummary { variant_count: 0, skipped_rows: 0 }
    }

    /// Counts one line outcome.
    pub fn record(&mut self, k: ConsumeOutcome)
        requires
            k == ConsumeOutcome::Parsed ==> old(self).variant_count < usize::MAX,
            k == ConsumeOutcome::Skipped ==> old(self).skipped_rows < usize::MAX,
        ensures
            final(self).variant_count == old(self).variant_count + if k == ConsumeOutcome::Parsed {
                1int
            } else {
                0int
            },
            final(self).skipped_rows == old(self).skipped_rows + if k == ConsumeOutcome::Skipped {
                1int
            } else {
                0int
            },
    {
        match k {
            ConsumeOutcome::Parsed => {
                self.variant_count = self.variant_count + 1;
            },
            ConsumeOutcome::Skipped => {
                self.skipped_rows = self.skipped_rows + 1;
            },
            ConsumeOutcome::Ignored => {},
        }
    }
}

/// The lookahead window of a file: its first lines, at most `LOOKAHEAD_LINES`.
pub open spec fn window(lines: Seq<Seq<char>>) -> Seq<Seq<char>> {
    if lines.len() <= LOOKAHEAD_LINES {
        lines
    } else {
        lines.take(LOOKAHEAD_LINES as int)
    }
}

/// The outcomes of every line of a file, in order.
pub open spec fn file_outcomes(lines: Seq<Seq<char>>) -> Seq<RowSpec> {
    run_spec(fresh_parser(detect_spec(window(lines))), lines).1
}

/// Starts a file from its lookahead window: the delimiter is chosen from it and frozen.
/// An empty window means an empty file.
pub fn begin_file(lookahead: &[Vec<char>]) -> (r: Result<LineParser, FileError>)
    ensures
        lookahead@.len() == 0 <==> r is Err,
        r is Err ==> r == Err::<LineParser, FileError>(FileError::Empty),
        r matches Ok(p) ==> p.wf() && p@ == fresh_parser(detect_spec(view_rows(lookahead@))),
{
    if lookahead.len() == 0 {
        return Err(FileError::Empty);
    }
    Ok(LineParser::new(detect_delimiter(lookahead)))
}

/// Parses every line of a file: the summary counts the outcomes, and the variants come
/// back in file order.
pub fn parse_lines(lines: &[Vec<char>]) -> (r: Result<(ParsedFile, Vec<VariantRecord>), FileError>)
    ensures
        lines@.len() == 0 <==> r is Err,
        r is Err ==> r == Err::<(ParsedFile, Vec<VariantRecord>), FileError>(FileError::Empty),
        r matches Ok((f, recs)) ==> {
            let outs = file_outcomes(view_rows(lines@));
            &&& f.summary.variant_count == count_kind(outs, ConsumeOutcome::Parsed)
            &&& f.summary.skipped_rows == count_kind(outs, ConsumeOutcome::Skipped)
            &&& view_records(recs@) == parsed_records(outs)
        },
{
    let n = lines.len();
    let w: usize = if n <= LOOKAHEAD_LINES {
        n
    } else {
        LOOKAHEAD_LINES
    };
    let ghost all = view_rows(lines@);
    assert(view_rows(lines@.subrange(0, w as int)) =~= window(all));
    let mut parser = match begin_file(&lines[0..w]) {
        Ok(p) => p,
        Err(e) => {
            return Err(e);
        },
    };
    let ghost p0 = parser@;
    let mut summary = ParseSummary::new();
    let mut records: Vec<VariantRecord> = Vec::new();
    let ghost mut outs: Seq<RowSpec> = Seq::empty();
    let mut i: usize = 0;
    assert(all.take(0) =~= Seq::<Seq<char>>::empty());
    assert(view_records(records@) =~= Seq::<VariantSpec>::empty());
    while i < n
        invariant
            i <= n == lines@.len(),
            all == view_rows(lines@),
            parser.wf(),
            p0 == fresh_parser(detect_spec(window(all))),
            run_spec(p0, all.take(i as int)) == (parser@, outs),
            outs.len() == i,
            summary.variant_count == count_kind(outs, ConsumeOutcome::Parsed),
            summary.skipped_rows == count_kind(outs, ConsumeOutcome::Skipped),
            view_records(records@) == parsed_records(outs),
        decreases n - i,
    {
        let out = parser.consume_line(lines[i].as_slice());
        let k = out.kind();
        proof {
            assert(all.take(i + 1).drop_last() =~= all.take(i as int));
            assert(all.take(i + 1).last() == lines@[i as int]@);
            lemma_count_bound(outs);
        }
        summary.record(k);
        let ghost row = out@;
        let ghost old_outs = outs;
        let ghost old_records = records@;
        match out {
            RowOutcome::Parsed(v) => {
                records.push(v);
                assert(view_records(records@) =~= view_records(old_records).push(v@));
            },
            _ => {},
        }
        proof {
            outs = outs.push(row);
            assert(outs.drop_last() =~= old_outs);
            assert(view_records(records@) =~= parsed_records(outs));
        }
        i += 1;
    }
    assert(all.take(n as int) =~= all);
    Ok((ParsedFile { metadata: FileMetadata {  }, summary }, records))
}

/// Delimiter priority: when the first substantive line holds a tab, the file is
/// tab-separated, whatever else (a comma) that line holds.
pub proof fn lemma_tab_has_priority(lines: Seq<Seq<char>>, i: int)
    requires
        0 <= i < lines.len(),
        forall|k: int| 0 <= k < i ==> !substantive(#[trigger] lines[k]),
        substantive(lines[i]),
        contains_char(lines[i], '\t'),
    ensures
        detect_spec(lines) == Delimiter::Tab,
{
    lemma_detect_skips(lines, 0, i);
}

proof fn lemma_detect_skips(lines: Seq<Seq<char>>, k: int, i: int)
    requires
        0 <= k <= i < lines.len(),
        forall|j: int| 0 <= j < i ==> !substantive(#[trigger] lines[j]),
    ensures
        detect_from(lines, k) == detect_from(lines, i),
    decreases i - k,
{
    if k < i {
        assert(!substantive(lines[k]));
        lemma_detect_skips(lines, k + 1, i);
    }
}

proof fn lemma_tab_split_nonempty(s: Seq<char>, i: int, fields: Seq<Seq<char>>, cur: Seq<char>)
    ensures
        tab_split_from(s, i, fields, cur).len() > fields.len(),
    decreases s.len() - i,
{
    if i < s.len() {
        if s[i] == '\t' {
            lemma_tab_split_nonempty(s, i + 1, fields.push(trim_spec(cur)), Seq::empty());
        } else {
            lemma_tab_split_nonempty(s, i + 1, fields, cur.push(s[i]));
        }
    }
}

proof fn lemma_csv_split_nonempty(
    s: Seq<char>,
    i: int,
    fields: Seq<Seq<char>>,
    cur: Seq<char>,
    quoted: bool,
)
    ensures
        csv_split_from(s, i, fields, cur, quoted).len() > fields.len(),
    decreases s.len() - i,
{
    if i < s.len() && i >= 0 {
        if s[i] == '"' {
            if quoted && i + 1 < s.len() && s[i + 1] == '"' {
                lemma_csv_split_nonempty(s, i + 2, fields, cur.push('"'), quoted);
            } else {
                lemma_csv_split_nonempty(s, i + 1, fields, cur, !quoted);
            }
        } else if s[i] == ',' && !quoted {
            lemma_csv_split_nonempty(s, i + 1, fields.push(trim_spec(cur)), Seq::empty(), quoted);
        } else {
            lemma_csv_split_nonempty(s, i + 1, fields, cur.push(s[i]), quoted);
        }
    }
}

/// Every data row yields one outcome that is parsed or skipped: in a file of lines that
/// are neither blank nor comments, read under one delimiter, the parsed and skipped rows
/// number the lines, less the first when it is a header.
pub proof fn lemma_every_data_line_counted(d: Delimiter, lines: Seq<Seq<char>>)
    requires
        lines.len() > 0,
        forall|k: int| 0 <= k < lines.len() ==> substantive(#[trigger] lines[k]),
    ensures
        ({
            let outs = run_spec(fresh_parser(d), lines).1;
            count_kind(outs, ConsumeOutcome::Parsed) + count_kind(outs, ConsumeOutcome::Skipped)
                == lines.len() - if looks_like_header_spec(fields_spec(d, lines[0])) {
                1int
            } else {
                0int
            }
        }),
        ({
            let outs = file_outcomes(lines);
            let fd = detect_spec(window(lines));
            count_kind(outs, ConsumeOutcome::Parsed) + count_kind(outs, ConsumeOutcome::Skipped)
                == lines.len() - if looks_like_header_spec(fields_spec(fd, lines[0])) {
                1int
            } else {
                0int
            }
        }),
{
    lemma_counted_run(d, lines);
    lemma_counted_run(detect_spec(window(lines)), lines);
}

proof fn lemma_lead_stops(s: Seq<char>)
    requires
        lead_spaces(s) < s.len(),
    ensures
        !is_space_spec(s[lead_spaces(s) as int]),
    decreases s.len(),
{
    if s.len() > 0 && is_space_spec(s[0]) {
        lemma_lead_stops(s.drop_first());
    }
}

proof fn lemma_space_split_nonempty(
    s: Seq<char>,
    i: int,
    fields: Seq<Seq<char>>,
    cur: Seq<char>,
    k: int,
)
    requires
        cur.len() > 0 || (0 <= i <= k < s.len() && !is_space_spec(s[k])),
    ensures
        space_split_from(s, i, fields, cur).len() > fields.len(),
    decreases s.len() - i,
{
    if i < s.len() {
        if is_space_spec(s[i]) {
            if cur.len() > 0 {
                lemma_space_split_nonempty_any(s, i + 1, fields.push(cur), Seq::empty());
            } else {
                lemma_space_split_nonempty(s, i + 1, fields, Seq::empty(), k);
            }
        } else {
            lemma_space_split_nonempty(s, i + 1, fields, cur.push(s[i]), k);
        }
    }
}

proof fn lemma_space_split_nonempty_any(s: Seq<char>, i: int, fields: Seq<Seq<char>>, cur: Seq<char>)
    ensures
        space_split_from(s, i, fields, cur).len() >= fields.len(),
    decreases s.len() - i,
{
    if i < s.len() {
        if is_space_spec(s[i]) {
            if cur.len() > 0 {
                lemma_space_split_nonempty_any(s, i + 1, fields.push(cur), Seq::empty());
            } else {
                lemma_space_split_nonempty_any(s, i + 1, fields, Seq::empty());
            }
        } else {
            lemma_space_split_nonempty_any(s, i + 1, fields, cur.push(s[i]));
        }
    }
}

proof fn lemma_fields_nonempty(d: Delimiter, s: Seq<char>)
    requires
        substantive(s),
    ensures
        fields_spec(d, s).len() > 0,
{
    if d == Delimiter::Tab {
        lemma_tab_split_nonempty(s, 0, Seq::empty(), Seq::empty());
    } else if d == Delimiter::Comma {
        lemma_csv_split_nonempty(s, 0, Seq::empty(), Seq::empty(), false);
    } else {
        crate::text::lemma_lead_bound(s);
        if lead_spaces(s) == s.len() {
            assert(trim_start_spec(s).len() == 0);
        }
        lemma_lead_stops(s);
        lemma_space_split_nonempty(s, 0, Seq::empty(), Seq::empty(), lead_spaces(s) as int);
    }
}

proof fn lemma_counted_run(d: Delimiter, lines: Seq<Seq<char>>)
    requires
        lines.len() > 0,
        forall|k: int| 0 <= k < lines.len() ==> substantive(#[trigger] lines[k]),
    ensures
        ({
            let r = run_spec(fresh_parser(d), lines);
            &&& r.0.delimiter == d
            &&& r.0.header is Some
            &&& count_kind(r.1, ConsumeOutcome::Parsed) + count_kind(r.1, ConsumeOutcome::Skipped)
                == lines.len() - if looks_like_header_spec(fields_spec(d, lines[0])) {
                1int
            } else {
                0int
            }
        }),
    decreases lines.len(),
{
    let last = lines.last();
    assert(substantive(lines[lines.len() - 1]));
    lemma_fields_nonempty(d, last);
    if lines.len() == 1 {
        let e = Seq::<Seq<char>>::empty();
        assert(lines.drop_last() =~= e);
        assert(run_spec(fresh_parser(d), e) == (fresh_parser(d), Seq::<RowSpec>::empty()));
        let outs = run_spec(fresh_parser(d), lines).1;
        assert(outs.drop_last() =~= Seq::<RowSpec>::empty());
        let st = consume_spec(fresh_parser(d), last);
        assert(lines[0] == last);
        assert(st.0.delimiter == d);
        assert(st.0.header is Some);
        assert(kind_spec(st.1) == ConsumeOutcome::Ignored <==> looks_like_header_spec(
            fields_spec(d, last),
        ));
        assert(outs == seq![st.1]);
        assert(outs.last() == st.1);
        assert(run_spec(fresh_parser(d), lines).0 == st.0);
        assert(count_kind(Seq::<RowSpec>::empty(), ConsumeOutcome::Parsed) == 0);
        assert(count_kind(Seq::<RowSpec>::empty(), ConsumeOutcome::Skipped) == 0);
    } else {
        let prev = lines.drop_last();
        assert forall|k: int| 0 <= k < prev.len() implies substantive(#[trigger] prev[k]) by {
            assert(prev[k] == lines[k]);
        }
        lemma_counted_run(d, prev);
        assert(prev[0] == lines[0]);
        let pr = run_spec(fresh_parser(d), prev);
        let st = consume_spec(pr.0, last);
        assert(st.0.delimiter == d);
        assert(st.0.header is Some);
        assert(kind_spec(st.1) != ConsumeOutcome::Ignored);
        let outs = run_spec(fresh_parser(d), lines).1;
        assert(outs == pr.1.push(st.1));
        assert(outs.drop_last() =~= pr.1);
        assert(outs.last() == st.1);
        assert(run_spec(fresh_parser(d), lines).0 == st.0);
        assert(count_kind(outs, ConsumeOutcome::Parsed) == count_kind(pr.1, ConsumeOutcome::Parsed)
            + if kind_spec(st.1) == ConsumeOutcome::Parsed {
            1nat
        } else {
            0nat
        });
        assert(count_kind(outs, ConsumeOutcome::Skipped) == count_kind(
            pr.1,
            ConsumeOutcome::Skipped,
        ) + if kind_spec(st.1) == ConsumeOutcome::Skipped {
            1nat
        } else {
            0nat
        });
    }
}

/// Classifying the buffered lines and then the rest of the stream, carrying the parser
/// state across, gives the same outcomes and state as one pass over the whole file.
pub proof fn lemma_buffered_then_streamed(p: ParserSpec, buffered: Seq<Seq<char>>, rest: Seq<Seq<char>>)
    ensures
        ({
            let first = run_spec(p, buffered);
            let second = run_spec(first.0, rest);
            run_spec(p, buffered + rest) == (second.0, first.1 + second.1)
        }),
    decreases rest.len(),
{
    if rest.len() == 0 {
        assert(buffered + rest =~= buffered);
        assert(run_spec(p, buffered).1 + Seq::<RowSpec>::empty() =~= run_spec(p, buffered).1);
    } else {
        lemma_buffered_then_streamed(p, buffered, rest.drop_last());
        assert((buffered + rest).drop_last() =~= buffered + rest.drop_last());
        assert((buffered + rest).last() == rest.last());
        let first = run_spec(p, buffered);
        let mid = run_spec(first.0, rest.drop_last());
        let step = consume_spec(mid.0, rest.last());
        assert(first.1 + mid.1.push(step.1) =~= (first.1 + mid.1).push(step.1));
    }
}

} // verus!
