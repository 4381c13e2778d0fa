use foam_ls::analyzer::{Analyzer, TextRange};

#[test]
fn hover_inside_boundary_keyword() {
    let text = "FoamFile {}\nboundary ();";
    let (doc, range) = Analyzer::hover(text, 1, 3).unwrap();
    assert_eq!(
        doc,
        "Defines the boundaries and patches of the mesh with their types and faces."
    );
    assert_eq!(
        range,
        TextRange { start_line: 1, start_col: 0, end_line: 1, end_col: 8 }
    );
    assert_eq!(range.end_col - range.start_col, "boundary".len());
}

#[test]
fn hover_in_whitespace_gives_nothing() {
    assert_eq!(Analyzer::hover("hex   blocks", 0, 4), None);
}

#[test]
fn hover_past_end_or_on_bad_text_gives_nothing() {
    assert_eq!(Analyzer::hover("hex", 0, 3), None);
    assert_eq!(Analyzer::hover("hex", 0, usize::MAX), None);
    assert_eq!(Analyzer::hover("hex", 7, 0), None);
    assert_eq!(Analyzer::hover("patchName", 0, 1), None);
}

#[test]
fn hover_on_punctuation_gives_fallback() {
    let (doc, range) = Analyzer::hover("hex ( 0 )", 0, 4).unwrap();
    assert_eq!(doc, "Unknown OpenFOAM keyword.");
    assert_eq!(range, TextRange { start_line: 0, start_col: 4, end_line: 0, end_col: 5 });
}
