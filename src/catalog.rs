//! The definition table (one documentation sentence per documented keyword)
//! and the highlight colors of token kinds.

use vstd::prelude::*;
use crate::token::Token;

verus! {

/// The documentation sentence of a token kind; kinds without one share a
/// fallback sentence.
pub open spec fn definition(t: Token) -> Seq<char> {
    match t {
        Token::FoamFile => "Specifies file metadata including version, format, and class of the OpenFOAM dictionary."@,
        Token::ConvertToMeters => "Specifies the scaling factor to convert the mesh units to meters."@,
        Token::Blocks => "Defines the list of mesh blocks in blockMesh."@,
        Token::Vertices => "Lists the vertex coordinates used to construct mesh blocks."@,
        Token::Hex => "Specifies a hexahedral block using a list of vertex indices."@,
        Token::SimpleGrading => "Describes the cell expansion ratios for mesh grading inside a block."@,
        Token::Boundary => "Defines the boundaries and patches of the mesh with their types and faces."@,
        Token::Application => "Specifies the name of the solver or application to be executed."@,
        Token::StartFrom => "Indicates how to determine the starting time of the simulation (e.g., 'startTime' or 'latestTime')."@,
        Token::StartTime => "Specifies the time value to start the simulation from."@,
        Token::StopAt => "Determines when the simulation should stop (e.g., 'endTime' or 'writeNow')."@,
        Token::EndTime => "Specifies the end time value of the simulation."@,
        Token::DeltaT => "Defines the time step size used for time integration."@,
        Token::WriteControl => "Determines the control strategy for writing output (e.g., 'timeStep', 'runTime')."@,
        Token::WriteInterval => "Specifies the interval at which results are written to disk."@,
        Token::PurgeWrite => "Limits the number of time directories stored by deleting old ones."@,
        Token::WriteFormat => "Specifies the format (e.g., ascii, binary) in which data is written."@,
        Token::WritePrecision => "Sets the numerical precision of written output."@,
        Token::WriteCompression => "Controls whether the output files are compressed (e.g., 'on' or 'off')."@,
        Token::TimeFormat => "Specifies the format used to write time directories (e.g., 'general' or 'fixed')."@,
        Token::TimePrecision => "Sets the precision of time values used in directory names."@,
        Token::RunTimeModifiable => "Determines if dictionaries can be modified during a running simulation."@,
        Token::DdtSchemes => "Defines the schemes for time derivative discretization."@,
        Token::GradSchemes => "Specifies the gradient calculation schemes."@,
        Token::DivSchemes => "Defines the discretization schemes for divergence terms."@,
        Token::LaplacianSchemes => "Specifies the schemes for discretizing Laplacian terms."@,
        Token::InterpolationSchemes => "Defines the interpolation schemes for field values at cell faces."@,
        Token::SnGradSchemes => "Specifies the schemes used for surface-normal gradient calculations."@,
        Token::Solvers => "Defines the linear solvers and their parameters for solving different fields."@,
        Token::Dimensions => "Specifies the physical dimensions of a field in SI units using a 7-tuple."@,
        Token::InternalField => "Defines the initial value of the field inside the domain."@,
        Token::BoundaryField => "Specifies boundary conditions for a field on each patch."@,
        Token::Type => "Specifies the type of a dictionary entry or boundary condition."@,
        Token::Value => "Used to assign a value in boundary or internal field specifications."@,
        _ => "Unknown OpenFOAM keyword."@,
    }
}

/// Returns the documentation sentence of a token kind.
pub fn get_foam_definition(input: Token) -> (r: String)
    ensures
        r@ == definition(input),
{
    let text: &str = match input {
        Token::FoamFile => "Specifies file metadata including version, format, and class of the OpenFOAM dictionary.",
        Token::ConvertToMeters => "Specifies the scaling factor to convert the mesh units to meters.",
        Token::Blocks => "Defines the list of mesh blocks in blockMesh.",
        Token::Vertices => "Lists the vertex coordinates used to construct mesh blocks.",
        Token::Hex => "Specifies a hexahedral block using a list of vertex indices.",
        Token::SimpleGrading => "Describes the cell expansion ratios for mesh grading inside a block.",
        Token::Boundary => "Defines the boundaries and patches of the mesh with their types and faces.",
        Token::Application => "Specifies the name of the solver or application to be executed.",
        Token::StartFrom => "Indicates how to determine the starting time of the simulation (e.g., 'startTime' or 'latestTime').",
        Token::StartTime => "Specifies the time value to start the simulation from.",
        Token::StopAt => "Determines when the simulation should stop (e.g., 'endTime' or 'writeNow').",
        Token::EndTime => "Specifies the end time value of the simulation.",
        Token::DeltaT => "Defines the time step size used for time integration.",
        Token::WriteControl => "Determines the control strategy for writing output (e.g., 'timeStep', 'runTime').",
        Token::WriteInterval => "Specifies the interval at which results are written to disk.",
        Token::PurgeWrite => "Limits the number of time directories stored by deleting old ones.",
        Token::WriteFormat => "Specifies the format (e.g., ascii, binary) in which data is written.",
        Token::WritePrecision => "Sets the numerical precision of written output.",
        Token::WriteCompression => "Controls whether the output files are compressed (e.g., 'on' or 'off').",
        Token::TimeFormat => "Specifies the format used to write time directories (e.g., 'general' or 'fixed').",
        Token::TimePrecision => "Sets the precision of time values used in directory names.",
        Token::RunTimeModifiable => "Determines if dictionaries can be modified during a running simulation.",
        Token::DdtSchemes => "Defines the schemes for time derivative discretization.",
        Token::GradSchemes => "Specifies the gradient calculation schemes.",
        Token::DivSchemes => "Defines the discretization schemes for divergence terms.",
        Token::LaplacianSchemes => "Specifies the schemes for discretizing Laplacian terms.",
        Token::InterpolationSchemes => "Defines the interpolation schemes for field values at cell faces.",
        Token::SnGradSchemes => "Specifies the schemes used for surface-normal gradient calculations.",
        Token::Solvers => "Defines the linear solvers and their parameters for solving different fields.",
        Token::Dimensions => "Specifies the physical dimensions of a field in SI units using a 7-tuple.",
        Token::InternalField => "Defines the initial value of the field inside the domain.",
        Token::BoundaryField => "Specifies boundary conditions for a field on each patch.",
        Token::Type => "Specifies the type of a dictionary entry or boundary condition.",
        Token::Value => "Used to assign a value in boundary or internal field specifications.",
        _ => "Unknown OpenFOAM keyword.",
    };
    text.to_owned()
}

/// The highlight color of a token kind, as `#RRGGBB`; kinds without a color
/// of their own are white.
pub open spec fn color(t: Token) -> Seq<char> {
    match t {
        Token::Hex => "#FF0000"@,
        Token::VolVectorField => "#00FF00"@,
        Token::Object => "#0000FF"@,
        Token::U => "#FFFF00"@,
        Token::Uniform => "#FF00FF"@,
        Token::MovingWall => "#00FFFF"@,
        Token::FixedValue => "#800080"@,
        Token::FrontAndBack => "#808080"@,
        Token::NoSlip => "#FFA500"@,
        Token::Empty => "#800000"@,
        Token::FixedWalls => "#008000"@,
        _ => "#FFFFFF"@,
    }
}

/// Returns the highlight color of a token kind.
pub fn token_color(token: Token) -> (r: String)
    ensures
        r@ == color(token),
{
    let text: &str = match token {
        Token::Hex => "#FF0000",
        Token::VolVectorField => "#00FF00",
        Token::Object => "#0000FF",
        Token::U => "#FFFF00",
        Token::Uniform => "#FF00FF",
        Token::MovingWall => "#00FFFF",
        Token::FixedValue => "#800080",
        Token::FrontAndBack => "#808080",
        Token::NoSlip => "#FFA500",
        Token::Empty => "#800000",
        Token::FixedWalls => "#008000",
        _ => "#FFFFFF",
    };
    text.to_owned()
}

} // verus!
