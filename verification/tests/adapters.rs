//! The LCOV and Cobertura adapters: line parsing, reading, writing, and
//! the round trips between them.

use rust_covfix::cobertura::path_is_valid;
use rust_covfix::cobertura::CoberturaEvent;
use rust_covfix::lcov::RawData;
use rust_covfix::parser::CoberturaParser;
use rust_covfix::parser::LcovParser;
use rust_covfix::BranchCoverage;
use rust_covfix::FileCoverage;
use rust_covfix::LineCoverage;
use rust_covfix::PackageCoverage;

fn lc(line: usize, count: u32) -> LineCoverage {
    LineCoverage { line_number: line, count: Some(count) }
}

fn bb(line: usize, block: usize, taken: bool) -> BranchCoverage {
    BranchCoverage { line_number: line, block_number: Some(block), taken: Some(taken) }
}

#[test]
fn parse_line_records() {
    let p = LcovParser::new("");
    assert_eq!(p.parse_line("TN:label"), Some(RawData::TN(String::from("label"))));
    assert_eq!(p.parse_line("SF:src/a.rs"), Some(RawData::SF(String::from("src/a.rs"))));
    assert_eq!(p.parse_line("DA:5,3"), Some(RawData::DA(5, 3)));
    assert_eq!(p.parse_line("DA:5"), None);
    assert_eq!(p.parse_line("BRDA:2,0,1,-"), Some(RawData::BRDA(2, 0, 1, false)));
    assert_eq!(p.parse_line("BRDA:2,0,1,3"), Some(RawData::BRDA(2, 0, 1, true)));
    assert_eq!(p.parse_line("BRDA:0,1,2,-"), Some(RawData::BRDA(0, 1, 2, false)));
    assert_eq!(p.parse_line("LF:7"), Some(RawData::LF(7)));
    assert_eq!(p.parse_line("LH:"), None);
    assert_eq!(p.parse_line("FN:3,name"), Some(RawData::FN(3, String::from("name"))));
    assert_eq!(p.parse_line("FNDA:2,name"), Some(RawData::FNDA(2, String::from("name"))));
    assert_eq!(p.parse_line("end_of_record "), Some(RawData::EndOfRecord));
    assert_eq!(p.parse_line("nonsense"), None);
    assert_eq!(p.parse_line(""), None);
}

fn sample_trace() -> Vec<String> {
    vec![
        String::from("TN:label"),
        String::from("SF:src/a.rs"),
        String::from("BRDA:2,0,0,1"),
        String::from("BRDA:2,0,1,-"),
        String::from("BRF:2"),
        String::from("BRH:1"),
        String::from("DA:1,2"),
        String::from("DA:2,0"),
        String::from("LF:2"),
        String::from("LH:1"),
        String::from("end_of_record"),
    ]
}

fn sample_package() -> PackageCoverage {
    PackageCoverage {
        name: String::from("label"),
        file_coverages: vec![FileCoverage {
            path: String::from("proj/src/a.rs"),
            line_coverages: vec![lc(0, 2), lc(1, 0)],
            branch_coverages: vec![bb(1, 0, true), bb(1, 0, false)],
        }],
    }
}

#[test]
fn lcov_read_simple() {
    let p = LcovParser::new("proj");
    let package = p.read_lines(&sample_trace()).unwrap();
    assert_eq!(package, sample_package());
}

#[test]
fn lcov_read_empty() {
    let p = LcovParser::new("proj");
    let package = p.read_lines(&Vec::new()).unwrap();
    assert_eq!(package.name(), "");
    assert_eq!(package.file_coverages().len(), 0);
}

#[test]
fn lcov_skips_line_zero() {
    let p = LcovParser::new("");
    let lines = vec![
        String::from("SF:a.rs"),
        String::from("DA:0,7"),
        String::from("BRDA:0,0,0,-"),
        String::from("DA:3,1"),
        String::from("end_of_record"),
    ];
    let package = p.read_lines(&lines).unwrap();
    assert_eq!(package.file_coverages()[0].line_coverages(), &[lc(2, 1)]);
    assert_eq!(package.file_coverages()[0].branch_coverages(), &[]);
}

#[test]
fn lcov_fails_on_malformed_record() {
    let p = LcovParser::new("");
    let lines = vec![
        String::from("SF:a.rs"),
        String::from("DA:5,x"),
        String::from("end_of_record"),
    ];
    let e = p.read_lines(&lines).unwrap_err();
    assert_eq!(e, rust_covfix::error::Error::FormatError(String::from("DA:5,x")));
    assert_eq!(e.message(), "Malformed record: DA:5,x");
}

#[test]
fn lcov_skips_unknown_lines() {
    let p = LcovParser::new("");
    let lines = vec![
        String::from("VER:something"),
        String::from(""),
        String::from("SF:a.rs"),
        String::from("DA:1,1"),
        String::from("end_of_record"),
    ];
    let package = p.read_lines(&lines).unwrap();
    assert_eq!(package.file_coverages()[0].line_coverages(), &[lc(0, 1)]);
}

#[test]
fn lcov_write_shape() {
    let p = LcovParser::new("proj");
    let out = p.write_package_coverage(&sample_package());
    assert_eq!(out, sample_trace());
}

#[test]
fn lcov_text_round_trip() {
    let p = LcovParser::new("proj");
    let x = sample_trace();
    let package = p.read_lines(&x).unwrap();
    let y = p.write_package_coverage(&package);
    assert_eq!(x, y);
}

#[test]
fn lcov_value_round_trip() {
    let p = LcovParser::new("proj");
    let package = sample_package();
    let text = p.write_package_coverage(&package);
    let back = p.read_lines(&text).unwrap();
    assert_eq!(back, package);
}

#[test]
fn cobertura_read_events() {
    let p = CoberturaParser::new("proj");
    let events = vec![
        CoberturaEvent::ClassStart(String::from("proj/a.rs")),
        CoberturaEvent::LineTag(String::from("1"), String::from("2")),
        CoberturaEvent::LineTag(String::from("0"), String::from("9")),
        CoberturaEvent::LineTag(String::from("2"), String::from("0")),
        CoberturaEvent::ClassEnd,
    ];
    let package = p.read_events(&events).unwrap();
    assert_eq!(package.name(), "");
    assert_eq!(package.file_coverages().len(), 1);
    assert_eq!(package.file_coverages()[0].path(), "proj/a.rs");
    assert_eq!(package.file_coverages()[0].line_coverages(), &[lc(0, 2), lc(1, 0)]);
    assert_eq!(package.file_coverages()[0].branch_coverages(), &[]);
}

#[test]
fn cobertura_fails_on_malformed_line_tag() {
    let p = CoberturaParser::new("proj");
    let events = vec![
        CoberturaEvent::ClassStart(String::from("proj/a.rs")),
        CoberturaEvent::LineTag(String::from("x"), String::from("1")),
        CoberturaEvent::ClassEnd,
    ];
    let e = p.read_events(&events).unwrap_err();
    assert_eq!(e, rust_covfix::error::Error::FormatError(String::from("x,1")));
}

#[test]
fn source_path_validity() {
    assert!(path_is_valid(&vec![b's', b'r', b'c']));
    assert!(!path_is_valid(&vec![0x01, 0x41]));
    assert!(!path_is_valid(&Vec::new()));
}

#[test]
fn cobertura_write_shape() {
    let p = CoberturaParser::new("proj");
    let package = PackageCoverage {
        name: String::from("pkg"),
        file_coverages: vec![FileCoverage {
            path: String::from("proj/a.rs"),
            line_coverages: vec![lc(0, 2), lc(1, 0)],
            branch_coverages: Vec::new(),
        }],
    };
    let out = p.write_package_coverage(&package, 99);
    let expected = vec![
        String::from("<?xml version=\"1.0\">"),
        String::from(
            "<!DOCTYPE coverage SYSTEM 'http://cobertura.sourceforge.net/xml/coverage-03.dtd'>",
        ),
        String::from("<coverage line-rate=\"0.500\" version=\"1.9\" timestamp=\"99\">"),
        String::from("<sources><source>proj</source></sources>"),
        String::from("<packages>"),
        String::from("<package name=\"pkg\" line-rate=\"0.500\" branch-rate=\"1.0\" complexity=\"1.0\">"),
        String::from("<classes>"),
        String::from("<class name=\"a.rs\" filename=\"a.rs\" line-rate=\"0.500\">"),
        String::from("<lines>"),
        String::from("<line number=\"1\" hits=\"2\"/>"),
        String::from("<line number=\"2\" hits=\"0\"/>"),
        String::from("</lines>"),
        String::from("</class>"),
        String::from("</classes>"),
        String::from("</package>"),
        String::from("</packages>"),
        String::from("</coverage>"),
    ];
    assert_eq!(out, expected);
}
