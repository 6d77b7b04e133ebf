use blueprint2mod::cli::{parse_args, CliCommand, CliError, CliOptions};
use blueprint2mod::workflow::ExportFormat;

fn args(list: &[&str]) -> Vec<String> {
    let mut v = vec!["blueprint2mod".to_string()];
    v.extend(list.iter().map(|s| s.to_string()));
    v
}

#[test]
fn no_arguments_opens_the_picker() {
    assert_eq!(
        parse_args(&args(&[])),
        Ok(CliCommand::Run(CliOptions { image: None, session: None, output: None, format: ExportFormat::Obj }))
    );
}

#[test]
fn image_with_output_and_format() {
    assert_eq!(
        parse_args(&args(&["floor_plan.png", "--format", "STL", "-o", "out/house.stl"])),
        Ok(CliCommand::Run(CliOptions {
            image: Some("floor_plan.png".to_string()),
            session: None,
            output: Some("out/house.stl".to_string()),
            format: ExportFormat::Stl,
        }))
    );
}

#[test]
fn session_resumes() {
    assert_eq!(
        parse_args(&args(&["--session", "p.b2m"])),
        Ok(CliCommand::Run(CliOptions {
            image: None,
            session: Some("p.b2m".to_string()),
            output: None,
            format: ExportFormat::Obj,
        }))
    );
}

#[test]
fn help_and_version_win_when_first() {
    assert_eq!(parse_args(&args(&["-h", "--bogus"])), Ok(CliCommand::Help));
    assert_eq!(parse_args(&args(&["--version"])), Ok(CliCommand::Version));
    assert_eq!(parse_args(&args(&["--bogus", "-h"])), Err(CliError::UnknownArgument { arg: "--bogus".to_string() }));
}

#[test]
fn argument_errors() {
    assert_eq!(parse_args(&args(&["--session"])), Err(CliError::MissingSessionPath));
    assert_eq!(parse_args(&args(&["--output"])), Err(CliError::MissingOutputPath));
    assert_eq!(parse_args(&args(&["--format"])), Err(CliError::MissingFormat));
    assert_eq!(
        parse_args(&args(&["--format", "PLY"])),
        Err(CliError::UnsupportedFormat { value: "ply".to_string() })
    );
    assert_eq!(parse_args(&args(&["a.png", "b.png"])), Err(CliError::MultipleImages));
    assert_eq!(parse_args(&args(&["a.png", "--session", "s.b2m"])), Err(CliError::ImageWithSession));
}

#[test]
fn error_messages() {
    assert_eq!(CliError::MissingSessionPath.message(), "--session requires a path argument");
    assert_eq!(CliError::MissingOutputPath.message(), "--output requires a path argument");
    assert_eq!(CliError::MissingFormat.message(), "--format requires a value (obj or stl)");
    assert_eq!(
        CliError::UnsupportedFormat { value: "ply".to_string() }.message(),
        "unsupported format 'ply'. Use 'obj' or 'stl'."
    );
    assert_eq!(CliError::MultipleImages.message(), "only one IMAGE argument is allowed");
    assert_eq!(CliError::UnknownArgument { arg: "-x".to_string() }.message(), "unknown argument '-x'");
    assert_eq!(CliError::ImageWithSession.message(), "IMAGE and --session are mutually exclusive");
}
