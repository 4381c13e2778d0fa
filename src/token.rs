//! Token kinds of the dictionary language, source spans, and the keyword catalog.

use vstd::prelude::*;
use vstd::string::StringSliceAdditionalSpecFns;

verus! {

/// One classified lexical unit of a dictionary text.
#[derive(Debug, PartialEq, Eq, Clone, Copy, Structural)]
pub enum Token {
    // Single character tokens
    LeftParen,
    RightParen,
    LeftBrace,
    RightBrace,
    LeftBracket,
    RightBracket,
    Comma,
    Dot,
    Minus,
    Plus,
    Semicolon,
    Slash,
    Star,
    // Literals
    Int(i64),
    // Dictionary keywords
    FoamFile,
    ConvertToMeters,
    Blocks,
    Vertices,
    Hex,
    SimpleGrading,
    Boundary,
    Application,
    StartFrom,
    StartTime,
    StopAt,
    EndTime,
    DeltaT,
    WriteControl,
    WriteInterval,
    PurgeWrite,
    WriteFormat,
    WritePrecision,
    WriteCompression,
    TimeFormat,
    TimePrecision,
    RunTimeModifiable,
    DdtSchemes,
    GradSchemes,
    DivSchemes,
    LaplacianSchemes,
    InterpolationSchemes,
    SnGradSchemes,
    Solvers,
    Dimensions,
    InternalField,
    BoundaryField,
    Type,
    Value,
    Format,
    Ascii,
    Class,
    VolVectorField,
    Object,
    U,
    Uniform,
    MovingWall,
    FixedValue,
    FrontAndBack,
    NoSlip,
    Empty,
    FixedWalls,
    // Comments and the end marker
    BlockComment,
    LineComment,
    Eof,
}

/// A half-open interval `[start, end)` of byte offsets into the source text.
#[derive(Debug, PartialEq, Eq, Hash, Clone, Copy, Structural)]
pub struct Span {
    pub start: usize,
    pub end: usize,
}

/// The keyword whose spelling is exactly `w` (case-sensitive), if any.
#[verifier::opaque]
pub open spec fn keyword_of(w: Seq<u8>) -> Option<Token> {
    if w == "FoamFile".spec_bytes() {
        Some(Token::FoamFile)
    } else if w == "convertToMeters".spec_bytes() {
        Some(Token::ConvertToMeters)
    } else if w == "blocks".spec_bytes() {
        Some(Token::Blocks)
    } else if w == "vertices".spec_bytes() {
        Some(Token::Vertices)
    } else if w == "hex".spec_bytes() {
        Some(Token::Hex)
    } else if w == "simpleGrading".spec_bytes() {
        Some(Token::SimpleGrading)
    } else if w == "boundary".spec_bytes() {
        Some(Token::Boundary)
    } else if w == "application".spec_bytes() {
        Some(Token::Application)
    } else if w == "startFrom".spec_bytes() {
        Some(Token::StartFrom)
    } else if w == "startTime".spec_bytes() {
        Some(Token::StartTime)
    } else if w == "stopAt".spec_bytes() {
        Some(Token::StopAt)
    } else if w == "endTime".spec_bytes() {
        Some(Token::EndTime)
    } else if w == "deltaT".spec_bytes() {
        Some(Token::DeltaT)
    } else if w == "writeControl".spec_bytes() {
        Some(Token::WriteControl)
    } else if w == "writeInterval".spec_bytes() {
        Some(Token::WriteInterval)
    } else if w == "purgeWrite".spec_bytes() {
        Some(Token::PurgeWrite)
    } else if w == "writeFormat".spec_bytes() {
        Some(Token::WriteFormat)
    } else if w == "writePrecision".spec_bytes() {
        Some(Token::WritePrecision)
    } else if w == "writeCompression".spec_bytes() {
        Some(Token::WriteCompression)
    } else if w == "timeFormat".spec_bytes() {
        Some(Token::TimeFormat)
    } else if w == "timePrecision".spec_bytes() {
        Some(Token::TimePrecision)
    } else if w == "runTimeModifiable".spec_bytes() {
        Some(Token::RunTimeModifiable)
    } else if w == "ddtSchemes".spec_bytes() {
        Some(Token::DdtSchemes)
    } else if w == "gradSchemes".spec_bytes() {
        Some(Token::GradSchemes)
    } else if w == "divSchemes".spec_bytes() {
        Some(Token::DivSchemes)
    } else if w == "laplacianSchemes".spec_bytes() {
        Some(Token::LaplacianSchemes)
    } else if w == "interpolationSchemes".spec_bytes() {
        Some(Token::InterpolationSchemes)
    } else if w == "snGradSchemes".spec_bytes() {
        Some(Token::SnGradSchemes)
    } else if w == "solvers".spec_bytes() {
        Some(Token::Solvers)
    } else if w == "dimensions".spec_bytes() {
        Some(Token::Dimensions)
    } else if w == "internalField".spec_bytes() {
        Some(Token::InternalField)
    } else if w == "boundaryField".spec_bytes() {
        Some(Token::BoundaryField)
    } else if w == "type".spec_bytes() {
        Some(Token::Type)
    } else if w == "value".spec_bytes() {
        Some(Token::Value)
    } else if w == "format".spec_bytes() {
        Some(Token::Format)
    } else if w == "ascii".spec_bytes() {
        Some(Token::Ascii)
    } else if w == "class".spec_bytes() {
        Some(Token::Class)
    } else if w == "volVectorField".spec_bytes() {
        Some(Token::VolVectorField)
    } else if w == "object".spec_bytes() {
        Some(Token::Object)
    } else if w == "U".spec_bytes() {
        Some(Token::U)
    } else if w == "uniform".spec_bytes() {
        Some(Token::Uniform)
    } else if w == "movingWall".spec_bytes() {
        Some(Token::MovingWall)
    } else if w == "fixedValue".spec_bytes() {
        Some(Token::FixedValue)
    } else if w == "frontAndBack".spec_bytes() {
        Some(Token::FrontAndBack)
    } else if w == "noSlip".spec_bytes() {
        Some(Token::NoSlip)
    } else if w == "empty".spec_bytes() {
        Some(Token::Empty)
    } else if w == "fixedWalls".spec_bytes() {
        Some(Token::FixedWalls)
    } else {
        None
    }
}

/// The word that names the `boundary` keyword is its eight-byte spelling.
pub proof fn lemma_boundary_spelling(w: Seq<u8>)
    requires
        keyword_of(w) == Some(Token::Boundary),
    ensures
        w == "boundary".spec_bytes(),
        w.len() == 8,
{
    reveal(keyword_of);
    reveal_strlit("boundary");
    assert(vstd::string::is_ascii("boundary"));
    vstd::string::is_ascii_spec_bytes("boundary");
}

/// True iff the bytes of `w` are exactly the UTF-8 bytes of `lit`.
fn same_bytes(w: &[u8], lit: &str) -> (r: bool)
    ensures
        r == (w@ == lit.spec_bytes()),
{
    let b = lit.as_bytes();
    if w.len() != b.len() {
        return false;
    }
    let mut i: usize = 0;
    while i < w.len()
        invariant
            w@.len() == b@.len(),
            b@ == lit.spec_bytes(),
            i <= w@.len(),
            w@.subrange(0, i as int) == b@.subrange(0, i as int),
        decreases w@.len() - i,
    {
        if w[i] != b[i] {
            assert(w@[i as int] != b@[i as int]);
            return false;
        }
        assert(w@.subrange(0, i + 1) == w@.subrange(0, i as int).push(w@[i as int]));
        assert(b@.subrange(0, i + 1) == b@.subrange(0, i as int).push(b@[i as int]));
        i = i + 1;
    }
    assert(w@ == w@.subrange(0, w@.len() as int));
    assert(b@ == b@.subrange(0, b@.len() as int));
    true
}

/// Looks a word up in the keyword catalog.
pub fn keyword_token(w: &[u8]) -> (r: Option<Token>)
    ensures
        r == keyword_of(w@),
{
    reveal(keyword_of);
    if same_bytes(w, "FoamFile") {
        Some(Token::FoamFile)
    } else if same_bytes(w, "convertToMeters") {
        Some(Token::ConvertToMeters)
    } else if same_bytes(w, "blocks") {
        Some(Token::Blocks)
    } else if same_bytes(w, "vertices") {
        Some(Token::Vertices)
    } else if same_bytes(w, "hex") {
        Some(Token::Hex)
    } else if same_bytes(w, "simpleGrading") {
        Some(Token::SimpleGrading)
    } else if same_bytes(w, "boundary") {
        Some(Token::Boundary)
    } else if same_bytes(w, "application") {
        Some(Token::Application)
    } else if same_bytes(w, "startFrom") {
        Some(Token::StartFrom)
    } else if same_bytes(w, "startTime") {
        Some(Token::StartTime)
    } else if same_bytes(w, "stopAt") {
        Some(Token::StopAt)
    } else if same_bytes(w, "endTime") {
        Some(Token::EndTime)
    } else if same_bytes(w, "deltaT") {
        Some(Token::DeltaT)
    } else if same_bytes(w, "writeControl") {
        Some(Token::WriteControl)
    } else if same_bytes(w, "writeInterval") {
        Some(Token::WriteInterval)
    } else if same_bytes(w, "purgeWrite") {
        Some(Token::PurgeWrite)
    } else if same_bytes(w, "writeFormat") {
        Some(Token::WriteFormat)
    } else if same_bytes(w, "writePrecision") {
        Some(Token::WritePrecision)
    } else if same_bytes(w, "writeCompression") {
        Some(Token::WriteCompression)
    } else if same_bytes(w, "timeFormat") {
        Some(Token::TimeFormat)
    } else if same_bytes(w, "timePrecision") {
        Some(Token::TimePrecision)
    } else if same_bytes(w, "runTimeModifiable") {
        Some(Token::RunTimeModifiable)
    } else if same_bytes(w, "ddtSchemes") {
        Some(Token::DdtSchemes)
    } else if same_bytes(w, "gradSchemes") {
        Some(Token::GradSchemes)
    } else if same_bytes(w, "divSchemes") {
        Some(Token::DivSchemes)
    } else if same_bytes(w, "laplacianSchemes") {
        Some(Token::LaplacianSchemes)
    } else if same_bytes(w, "interpolationSchemes") {
        Some(Token::InterpolationSchemes)
    } else if same_bytes(w, "snGradSchemes") {
        Some(Token::SnGradSchemes)
    } else if same_bytes(w, "solvers") {
        Some(Token::Solvers)
    } else if same_bytes(w, "dimensions") {
        Some(Token::Dimensions)
    } else if same_bytes(w, "internalField") {
        Some(Token::InternalField)
    } else if same_bytes(w, "boundaryField") {
        Some(Token::BoundaryField)
    } else if same_bytes(w, "type") {
        Some(Token::Type)
    } else if same_bytes(w, "value") {
        Some(Token::Value)
    } else if same_bytes(w, "format") {
        Some(Token::Format)
    } else if same_bytes(w, "ascii") {
        Some(Token::Ascii)
    } else if same_bytes(w, "class") {
        Some(Token::Class)
    } else if same_bytes(w, "volVectorField") {
        Some(Token::VolVectorField)
    } else if same_bytes(w, "object") {
        Some(Token::Object)
    } else if same_bytes(w, "U") {
        Some(Token::U)
    } else if same_bytes(w, "uniform") {
        Some(Token::Uniform)
    } else if same_bytes(w, "movingWall") {
        Some(Token::MovingWall)
    } else if same_bytes(w, "fixedValue") {
        Some(Token::FixedValue)
    } else if same_bytes(w, "frontAndBack") {
        Some(Token::FrontAndBack)
    } else if same_bytes(w, "noSlip") {
        Some(Token::NoSlip)
    } else if same_bytes(w, "empty") {
        Some(Token::Empty)
    } else if same_bytes(w, "fixedWalls") {
        Some(Token::FixedWalls)
    } else {
        None
    }
}

/// The name of a token's kind, without any literal value.
pub open spec fn kind_name(t: Token) -> Seq<char> {
    match t {
        Token::LeftParen => "LeftParen"@,
        Token::RightParen => "RightParen"@,
        Token::LeftBrace => "LeftBrace"@,
        Token::RightBrace => "RightBrace"@,
        Token::LeftBracket => "LeftBracket"@,
        Token::RightBracket => "RightBracket"@,
        Token::Comma => "Comma"@,
        Token::Dot => "Dot"@,
        Token::Minus => "Minus"@,
        Token::Plus => "Plus"@,
        Token::Semicolon => "Semicolon"@,
        Token::Slash => "Slash"@,
        Token::Star => "Star"@,
        Token::Int(_) => "Int"@,
        Token::FoamFile => "FoamFile"@,
        Token::ConvertToMeters => "ConvertToMeters"@,
        Token::Blocks => "Blocks"@,
        Token::Vertices => "Vertices"@,
        Token::Hex => "Hex"@,
        Token::SimpleGrading => "SimpleGrading"@,
        Token::Boundary => "Boundary"@,
        Token::Application => "Application"@,
        Token::StartFrom => "StartFrom"@,
        Token::StartTime => "StartTime"@,
        Token::StopAt => "StopAt"@,
        Token::EndTime => "EndTime"@,
        Token::DeltaT => "DeltaT"@,
        Token::WriteControl => "WriteControl"@,
        Token::WriteInterval => "WriteInterval"@,
        Token::PurgeWrite => "PurgeWrite"@,
        Token::WriteFormat => "WriteFormat"@,
        Token::WritePrecision => "WritePrecision"@,
        Token::WriteCompression => "WriteCompression"@,
        Token::TimeFormat => "TimeFormat"@,
        Token::TimePrecision => "TimePrecision"@,
        Token::RunTimeModifiable => "RunTimeModifiable"@,
        Token::DdtSchemes => "DdtSchemes"@,
        Token::GradSchemes => "GradSchemes"@,
        Token::DivSchemes => "DivSchemes"@,
        Token::LaplacianSchemes => "LaplacianSchemes"@,
        Token::InterpolationSchemes => "InterpolationSchemes"@,
        Token::SnGradSchemes => "SnGradSchemes"@,
        Token::Solvers => "Solvers"@,
        Token::Dimensions => "Dimensions"@,
        Token::InternalField => "InternalField"@,
        Token::BoundaryField => "BoundaryField"@,
        Token::Type => "Type"@,
        Token::Value => "Value"@,
        Token::Format => "Format"@,
        Token::Ascii => "Ascii"@,
        Token::Class => "Class"@,
        Token::VolVectorField => "VolVectorField"@,
        Token::Object => "Object"@,
        Token::U => "U"@,
        Token::Uniform => "Uniform"@,
        Token::MovingWall => "MovingWall"@,
        Token::FixedValue => "FixedValue"@,
        Token::FrontAndBack => "FrontAndBack"@,
        Token::NoSlip => "NoSlip"@,
        Token::Empty => "Empty"@,
        Token::FixedWalls => "FixedWalls"@,
        Token::BlockComment => "BlockComment"@,
        Token::LineComment => "LineComment"@,
        Token::Eof => "Eof"@,
    }
}

/// Executable form of `kind_name`.
pub fn kind_name_str(t: Token) -> (r: &'static str)
    ensures
        r@ == kind_name(t),
{
    match t {
        Token::LeftParen => "LeftParen",
        Token::RightParen => "RightParen",
        Token::LeftBrace => "LeftBrace",
        Token::RightBrace => "RightBrace",
        Token::LeftBracket => "LeftBracket",
        Token::RightBracket => "RightBracket",
        Token::Comma => "Comma",
        Token::Dot => "Dot",
        Token::Minus => "Minus",
        Token::Plus => "Plus",
        Token::Semicolon => "Semicolon",
        Token::Slash => "Slash",
        Token::Star => "Star",
        Token::Int(_) => "Int",
        Token::FoamFile => "FoamFile",
        Token::ConvertToMeters => "ConvertToMeters",
        Token::Blocks => "Blocks",
        Token::Vertices => "Vertices",
        Token::Hex => "Hex",
        Token::SimpleGrading => "SimpleGrading",
        Token::Boundary => "Boundary",
        Token::Application => "Application",
        Token::StartFrom => "StartFrom",
        Token::StartTime => "StartTime",
        Token::StopAt => "StopAt",
        Token::EndTime => "EndTime",
        Token::DeltaT => "DeltaT",
        Token::WriteControl => "WriteControl",
        Token::WriteInterval => "WriteInterval",
        Token::PurgeWrite => "PurgeWrite",
        Token::WriteFormat => "WriteFormat",
        Token::WritePrecision => "WritePrecision",
        Token::WriteCompression => "WriteCompression",
        Token::TimeFormat => "TimeFormat",
        Token::TimePrecision => "TimePrecision",
        Token::RunTimeModifiable => "RunTimeModifiable",
        Token::DdtSchemes => "DdtSchemes",
        Token::GradSchemes => "GradSchemes",
        Token::DivSchemes => "DivSchemes",
        Token::LaplacianSchemes => "LaplacianSchemes",
        Token::InterpolationSchemes => "InterpolationSchemes",
        Token::SnGradSchemes => "SnGradSchemes",
        Token::Solvers => "Solvers",
        Token::Dimensions => "Dimensions",
        Token::InternalField => "InternalField",
        Token::BoundaryField => "BoundaryField",
        Token::Type => "Type",
        Token::Value => "Value",
        Token::Format => "Format",
        Token::Ascii => "Ascii",
        Token::Class => "Class",
        Token::VolVectorField => "VolVectorField",
        Token::Object => "Object",
        Token::U => "U",
        Token::Uniform => "Uniform",
        Token::MovingWall => "MovingWall",
        Token::FixedValue => "FixedValue",
        Token::FrontAndBack => "FrontAndBack",
        Token::NoSlip => "NoSlip",
        Token::Empty => "Empty",
        Token::FixedWalls => "FixedWalls",
        Token::BlockComment => "BlockComment",
        Token::LineComment => "LineComment",
        Token::Eof => "Eof",
    }
}

} // verus!
