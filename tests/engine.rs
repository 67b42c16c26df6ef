use genostats::batch::{
    check_inputs, collect_batch, should_process, worker_count, BatchError, FileOutcome,
    FileReport,
};
use genostats::genotype::{
    begin_file, detect_delimiter, parse_lines, split_csv_line,
    ConsumeOutcome, Delimiter, Field, FileError, LineParser, ParseSummary, RowOutcome, SkipReason,
    VariantRecord,
};
use genostats::report::html_escape;
use genostats::stats::{CategoryCount, LookupError, LookupRow, ReferenceVariant, StatsStore};
use genostats::text::{normalize_name, parse_i64, strip_inline_comment, trim};
use genostats::util::is_candidate_file;

fn c(s: &str) -> Vec<char> {
    s.chars().collect()
}

fn lines(ls: &[&str]) -> Vec<Vec<char>> {
    ls.iter().map(|l| c(l)).collect()
}

fn text(v: &[char]) -> String {
    v.iter().collect()
}

fn outcomes(ls: &[&str]) -> Vec<RowOutcome> {
    let ls = lines(ls);
    let mut parser = begin_file(&ls).expect("non-empty");
    ls.iter().map(|l| parser.consume_line(l)).collect()
}

fn kinds(outs: &[RowOutcome]) -> Vec<ConsumeOutcome> {
    outs.iter().map(|o| o.kind()).collect()
}

fn parsed(o: &RowOutcome) -> &VariantRecord {
    match o {
        RowOutcome::Parsed(v) => v,
        other => panic!("expected a parsed row, got {:?}", other),
    }
}

#[test]
fn csv_quoting_keeps_comma_inside_quotes() {
    let fields = split_csv_line(&c("\"rs123\",\"1, extra\",100,AA"));
    assert_eq!(fields.len(), 4);
    assert_eq!(text(&fields[0]), "rs123");
    assert_eq!(text(&fields[1]), "1, extra");
    assert_eq!(text(&fields[2]), "100");
    assert_eq!(text(&fields[3]), "AA");
}

#[test]
fn csv_doubled_quote_is_literal() {
    let fields = split_csv_line(&c("\"a\"\"b\", c ,"));
    assert_eq!(fields.len(), 3);
    assert_eq!(text(&fields[0]), "a\"b");
    assert_eq!(text(&fields[1]), "c");
    assert_eq!(text(&fields[2]), "");
}

#[test]
fn tab_wins_over_comma() {
    assert_eq!(detect_delimiter(&lines(&["rs1\t1,2\t100\tAA"])), Delimiter::Tab);
}

#[test]
fn delimiter_detection_order() {
    assert_eq!(detect_delimiter(&lines(&["rs1,1,100,AA"])), Delimiter::Comma);
    assert_eq!(detect_delimiter(&lines(&["rs1 1  100 AA"])), Delimiter::Space);
    assert_eq!(
        detect_delimiter(&lines(&["", "# a,b", "// x\ty", "rs1,1,100,AA"])),
        Delimiter::Comma
    );
    assert_eq!(detect_delimiter(&lines(&["single", "rs1 1 100 AA"])), Delimiter::Tab);
    assert_eq!(detect_delimiter(&lines(&["# c", "single", "rs1,1,100,AA"])), Delimiter::Tab);
    assert_eq!(detect_delimiter(&lines(&["# only", "   "])), Delimiter::Tab);
    assert_eq!(detect_delimiter(&lines(&[])), Delimiter::Tab);
}

#[test]
fn header_line_is_consumed() {
    for header in ["RSID\tchromosome\tposition\tgenotype", "snp\tchr\tpos\tgt", "Marker Name\tchr\tpos\tresult"] {
        let outs = outcomes(&[header, "rs1\t1\t100\tAA"]);
        assert_eq!(kinds(&outs), vec![ConsumeOutcome::Ignored, ConsumeOutcome::Parsed]);
        let v = parsed(&outs[1]);
        assert_eq!(text(&v.rsid), "rs1");
        assert_eq!(text(&v.chromosome), "1");
        assert_eq!(v.position, 100);
        assert_eq!(text(&v.genotype), "AA");
    }
}

#[test]
fn comment_header_fallback() {
    let outs = outcomes(&["# rsid\tchromosome\tposition\tgenotype", "rs1\t1\t100\tAA"]);
    assert_eq!(kinds(&outs), vec![ConsumeOutcome::Ignored, ConsumeOutcome::Parsed]);
    assert_eq!(text(&parsed(&outs[1]).rsid), "rs1");

    // The comment header's column order is the one used.
    let outs = outcomes(&["## rsid\tposition\tchromosome\tgenotype", "rs2\t200\tX\tCT"]);
    let v = parsed(&outs[1]);
    assert_eq!(v.position, 200);
    assert_eq!(text(&v.chromosome), "X");
    assert_eq!(text(&v.genotype), "CT");
}

#[test]
fn default_header_for_five_columns() {
    let h: Vec<String> = LineParser::new(Delimiter::Tab).default_header(5).iter().map(|n| text(n)).collect();
    assert_eq!(h, vec!["rsid", "chromosome", "position", "genotype", "extra_0"]);
    let h: Vec<String> = LineParser::new(Delimiter::Tab).default_header(2).iter().map(|n| text(n)).collect();
    assert_eq!(h, vec!["rsid", "chromosome"]);
    let h = LineParser::new(Delimiter::Tab).default_header(15);
    assert_eq!(text(&h[14]), "extra_10");
    assert!(LineParser::new(Delimiter::Tab).default_header(0).is_empty());

    let outs = outcomes(&["rs1\t1\t100\tAA\tfoo", "rs2\t2\t5\tGG\tbar"]);
    assert_eq!(kinds(&outs), vec![ConsumeOutcome::Parsed, ConsumeOutcome::Parsed]);
}

#[test]
fn classification_is_repeatable() {
    let input = ["# rsid\tchr\tpos\tgt", "", "rs1\t1\t100\tAA", "rs2\t\t5\tGG", "x"];
    let a = kinds(&outcomes(&input));
    let b = kinds(&outcomes(&input));
    assert_eq!(a, b);
    assert_eq!(
        a,
        vec![
            ConsumeOutcome::Ignored,
            ConsumeOutcome::Ignored,
            ConsumeOutcome::Parsed,
            ConsumeOutcome::Skipped,
            ConsumeOutcome::Skipped
        ]
    );
}

#[test]
fn required_fields_enforced() {
    let header = "rsid\tchromosome\tposition\tgenotype\tallele1\tallele2";
    let outs = outcomes(&[header, "rs1\t1\t100\t\t\t", "rs1\t1\t100\t\tA\t"]);
    assert!(matches!(outs[1], RowOutcome::Skipped(SkipReason::MissingGenotype)));
    let v = parsed(&outs[2]);
    assert_eq!(text(&v.allele1), "A");
    assert!(v.genotype.is_empty());
    assert!(v.allele2.is_empty());
}

#[test]
fn each_skip_reason() {
    let outs = outcomes(&["rsid,chr,pos,gt", ",1,100,AA", "rs1,,100,AA", "rs1,1,abc,AA", "rs1,1,,AA"]);
    assert!(matches!(outs[1], RowOutcome::Skipped(SkipReason::MissingRsid)));
    assert!(matches!(outs[2], RowOutcome::Skipped(SkipReason::MissingChromosome)));
    assert!(matches!(outs[3], RowOutcome::Skipped(SkipReason::BadPosition)));
    assert!(matches!(outs[4], RowOutcome::Skipped(SkipReason::BadPosition)));
}

#[test]
fn inline_comments_are_dropped_from_values() {
    let outs = outcomes(&["rsid,chr,pos,gt", "rs1,1,100 # note,AA // x"]);
    let v = parsed(&outs[1]);
    assert_eq!(v.position, 100);
    assert_eq!(text(&v.genotype), "AA");
}

#[test]
fn data_lines_are_all_counted() {
    let (file, recs) = parse_lines(&lines(&[
        "rsid\tchromosome\tposition\tgenotype",
        "rs1\t1\t100\tAA",
        "rs2\t1\tbad\tAA",
        "rs3\t2\t300\tGT",
    ]))
    .expect("parsed");
    assert_eq!(file.summary.variant_count + file.summary.skipped_rows, 3);
    assert_eq!(file.summary, ParseSummary { variant_count: 2, skipped_rows: 1 });
    assert_eq!(recs.len(), 2);
    assert_eq!(text(&recs[1].rsid), "rs3");

    let (file, _) = parse_lines(&lines(&["rs1,1,100,AA", "rs2,1,200,AA"])).expect("parsed");
    assert_eq!(file.summary.variant_count + file.summary.skipped_rows, 2);
}

#[test]
fn empty_file_is_an_error() {
    assert!(matches!(parse_lines(&[]), Err(FileError::Empty)));
    assert!(matches!(begin_file(&[]), Err(FileError::Empty)));
}

#[test]
fn blank_and_comment_lines_are_ignored() {
    let mut p = LineParser::new(Delimiter::Tab);
    assert!(matches!(p.consume_line(&c("   ")), RowOutcome::Ignored));
    assert!(matches!(p.consume_line(&c("// comment")), RowOutcome::Ignored));
    assert!(matches!(p.consume_line(&c("#")), RowOutcome::Ignored));
    assert!(p.header.is_none());
}

#[test]
fn space_fields_split_on_runs() {
    let f = LineParser::new(Delimiter::Space).parse_fields(&c("  rs1 \t 1   100 AA "));
    let f: Vec<String> = f.iter().map(|x| text(x)).collect();
    assert_eq!(f, vec!["rs1", "1", "100", "AA"]);
    let f = LineParser::new(Delimiter::Tab).parse_fields(&c(" a \t\tb "));
    let f: Vec<String> = f.iter().map(|x| text(x)).collect();
    assert_eq!(f, vec!["a", "", "b"]);
}

#[test]
fn integer_parsing() {
    assert_eq!(parse_i64(&c("100")), Some(100));
    assert_eq!(parse_i64(&c("+5")), Some(5));
    assert_eq!(parse_i64(&c("-42")), Some(-42));
    assert_eq!(parse_i64(&c("9223372036854775807")), Some(i64::MAX));
    assert_eq!(parse_i64(&c("-9223372036854775808")), Some(i64::MIN));
    assert_eq!(parse_i64(&c("9223372036854775808")), None);
    assert_eq!(parse_i64(&c("")), None);
    assert_eq!(parse_i64(&c("-")), None);
    assert_eq!(parse_i64(&c("1a")), None);
    assert_eq!(parse_i64(&c(" 1")), None);
}

#[test]
fn names_are_normalized() {
    assert_eq!(text(&normalize_name(&c("Marker Name"))), "markername");
    assert_eq!(text(&normalize_name(&c("CHROM"))), "chrom");
    assert_eq!(text(&normalize_name(&c("Allele_A-top"))), "alleleatop");
}

#[test]
fn comments_and_spaces_stripped() {
    assert_eq!(text(&strip_inline_comment(&c("  AA # note"))), "AA");
    assert_eq!(text(&strip_inline_comment(&c("A//x#y"))), "A");
    assert_eq!(text(&strip_inline_comment(&c("#"))), "");
    assert_eq!(text(&trim(&c("\t x y \n"))), "x y");
}

#[test]
fn html_is_escaped() {
    assert_eq!(html_escape("<a href='x'>&\"</a>"), "&lt;a href=&#39;x&#39;&gt;&amp;&quot;&lt;/a&gt;");
    assert_eq!(html_escape("plain"), "plain");
    assert_eq!(html_escape(""), "");
}

#[test]
fn candidate_extensions() {
    assert!(is_candidate_file(Some("TXT")));
    assert!(is_candidate_file(Some("tsv")));
    assert!(is_candidate_file(Some("Csv")));
    assert!(!is_candidate_file(Some("vcf")));
    assert!(is_candidate_file(None));
}

#[test]
fn batch_isolates_failures() {
    let reports = vec![
        FileReport { path: "a.txt".to_string(), outcome: FileOutcome::Done(ParseSummary { variant_count: 3, skipped_rows: 1 }) },
        FileReport { path: "b.txt".to_string(), outcome: FileOutcome::Failed("File is empty".to_string()) },
        FileReport { path: "c.txt".to_string(), outcome: FileOutcome::Done(ParseSummary { variant_count: 2, skipped_rows: 0 }) },
    ];
    let r = collect_batch(&reports);
    assert_eq!(r.files_attempted, 3);
    assert_eq!(r.successes.len(), 2);
    assert_eq!(r.successes[0].0, "a.txt");
    assert_eq!(r.successes[1].0, "c.txt");
    assert_eq!(r.failures, vec![("b.txt".to_string(), "File is empty".to_string())]);

    let reports = vec![
        FileReport { path: "x".to_string(), outcome: FileOutcome::AlreadyRecorded },
        FileReport { path: "y".to_string(), outcome: FileOutcome::Failed("bad".to_string()) },
    ];
    let r = collect_batch(&reports);
    assert_eq!(r.files_attempted, 2);
    assert!(r.successes.is_empty());
    assert_eq!(r.failures.len(), 1);
}

#[test]
fn batch_preconditions() {
    assert_eq!(check_inputs(&[]), Err(BatchError::NoInputs));
    assert_eq!(check_inputs(&["a".to_string()]), Ok(()));
    assert_eq!(worker_count(0), 1);
    assert_eq!(worker_count(16), 16);
    assert!(should_process(false, true));
    assert!(!should_process(true, true));
    assert!(should_process(true, false));
}

#[test]
fn store_summary_sums_formats() {
    let store = StatsStore::new("data/db.sqlite".to_string());
    assert!(!store.has_file("a.txt"));
    let formats = vec![
        CategoryCount { value: Some("dynamic_dna".to_string()), count: 5 },
        CategoryCount { value: None, count: 7 },
    ];
    let s = store.summary(4, formats, vec![]);
    assert_eq!(s.total_variants, 12);
    assert_eq!(s.unique_rsids, 4);
    assert_eq!(s.files_processed, 0);
    assert_eq!(s.sqlite_path, "data/db.sqlite");
}

#[test]
fn references_are_limited() {
    let store = StatsStore::new("db".to_string());
    let row = |rsid: i64| ReferenceVariant {
        rsid,
        chromosome: "1".to_string(),
        position: rsid * 10,
        reference: "A".to_string(),
        alternates: "G".to_string(),
    };
    let rows = vec![row(1), row(2), row(3)];
    assert_eq!(store.all_references(rows.clone(), Some(2)).len(), 2);
    assert_eq!(store.all_references(rows.clone(), Some(9)).len(), 3);
    let all = store.all_references(rows, None);
    assert_eq!(all.len(), 3);
    assert_eq!(all[2].rsid, 3);
}

#[test]
fn lookup_rows_become_references() {
    let row = |rsid: &str, qpos: &str, rpos: &str, status: &str| LookupRow {
        query_rsid: rsid.to_string(),
        query_chrom: "7".to_string(),
        query_pos: qpos.to_string(),
        ref_pos: rpos.to_string(),
        reference: "A".to_string(),
        alt: "C,T".to_string(),
        status: status.to_string(),
    };
    let v = row(" rs123 ", "10", "20", "EXACT").to_reference().unwrap().unwrap();
    assert_eq!(v.rsid, 123);
    assert_eq!(v.position, 20);
    assert_eq!(v.chromosome, "7");
    assert_eq!(v.alternates, "C,T");
    let v = row("rs5", "10", "n/a", "exact").to_reference().unwrap().unwrap();
    assert_eq!(v.position, 10);
    assert!(row("rs5", "10", "20", "partial").to_reference().unwrap().is_none());
    assert!(matches!(row("rs5", "x", "y", "exact").to_reference(), Err(LookupError::BadPosition)));
    assert!(matches!(row("snp5", "1", "2", "exact").to_reference(), Err(LookupError::BadRsid)));
}

fn report_for(path: &str, content: &[&str]) -> FileReport {
    let outcome = match parse_lines(&lines(content)) {
        Ok((file, _)) => FileOutcome::Done(file.summary),
        Err(FileError::Empty) => FileOutcome::Failed(format!("File {:?} is empty", path)),
    };
    FileReport { path: path.to_string(), outcome }
}

#[test]
fn empty_file_fails_alone_in_any_position() {
    let good1 = ["rsid\tchromosome\tposition\tgenotype", "rs1\t1\t100\tAA"];
    let good2 = ["rs9,2,900,CT", "rs8,2,800,"];
    for empty_at in 0..3 {
        let mut reports = vec![report_for("one.txt", &good1), report_for("three.txt", &good2)];
        reports.insert(empty_at, report_for("two.txt", &[]));
        let r = collect_batch(&reports);
        assert_eq!(r.files_attempted, 3);
        assert_eq!(r.successes.len(), 2);
        assert_eq!(r.successes[0].0, "one.txt");
        assert_eq!(r.successes[0].1, ParseSummary { variant_count: 1, skipped_rows: 0 });
        assert_eq!(r.successes[1].0, "three.txt");
        assert_eq!(r.successes[1].1, ParseSummary { variant_count: 1, skipped_rows: 1 });
        assert_eq!(r.failures.len(), 1);
        assert_eq!(r.failures[0].0, "two.txt");
    }
}

#[test]
fn headerless_five_columns_read_by_position() {
    let outs = outcomes(&["rs7\t3\t70\tTT\tjunk"]);
    let v = parsed(&outs[0]);
    assert_eq!(text(&v.rsid), "rs7");
    assert_eq!(text(&v.chromosome), "3");
    assert_eq!(v.position, 70);
    assert_eq!(text(&v.genotype), "TT");
}

#[test]
fn lookup_by_alias_order_and_last_column() {
    let p = LineParser::new(Delimiter::Tab);
    let keys = vec![c("snp"), c("chr"), c("chrom"), c("chr"), c("gt")];
    let vals = vec![c("rs4"), c("1"), c(""), c("2"), c("")];
    assert_eq!(p.lookup(&keys, &vals, Field::Rsid), Some(c("rs4")));
    // "chr" occurs twice: the later column wins; "chromosome" is absent, "chrom" is empty.
    assert_eq!(p.lookup(&keys, &vals, Field::Chromosome), Some(c("2")));
    assert_eq!(p.lookup(&keys, &vals, Field::Genotype), None);
    assert_eq!(p.lookup(&keys, &vals, Field::Position), None);
}
