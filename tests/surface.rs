use cnvx::cli::{Input, LanguageType};
use cnvx::lang::{format_of, AMPLLanguage, GMPLLanguage, MPSLanguage, ModelFormat};
use cnvx::var::VarId;
use cnvx::version::{get_version, version, CnvxVersion};

#[test]
fn version_string() {
    assert_eq!(version(), "0.1.0");
    assert_eq!(get_version().render(), "v0.1.0");
}

#[test]
fn version_with_commit() {
    let v = CnvxVersion::new("1.2.3", Some("0123456789abcdef"));
    assert_eq!(v.render(), "v1.2.3+0123456.dirty");
    let short = CnvxVersion::new("1.2.3", Some("abc"));
    assert_eq!(short.render(), "v1.2.3+abc.dirty");
}

#[test]
fn input_arguments() {
    assert!(Input::parse_arg("").is_none());
    assert!(matches!(Input::parse_arg("-"), Some(Input::Stdin)));
    match Input::parse_arg("model.mps") {
        Some(Input::Path(p)) => assert_eq!(p, "model.mps"),
        _ => panic!("expected a path"),
    }
    assert!(matches!(Input::parse_arg("--"), Some(Input::Path(_))));
    assert_eq!(Input::Stdin.describe(), "stdin");
    assert_eq!(Input::Path("a/b.gmpl".to_string()).describe(), "a/b.gmpl");
}

#[test]
fn language_names() {
    assert_eq!(LanguageType::GMPL.name(), "gmpl");
    assert_eq!(LanguageType::MPS.name(), "mps");
}

#[test]
fn language_readers_construct() {
    let _ = AMPLLanguage::new();
    let _ = GMPLLanguage::new();
    let _ = MPSLanguage::new();
}

#[test]
fn var_id_index() {
    assert_eq!(VarId(4).index(), 4);
    assert_eq!(VarId(2), VarId(2));
}

#[test]
fn model_formats_by_name() {
    assert_eq!(format_of("ampl"), Some(ModelFormat::Ampl));
    assert_eq!(format_of("gmpl"), Some(ModelFormat::Gmpl));
    assert_eq!(format_of("mps"), Some(ModelFormat::Mps));
    assert_eq!(format_of("MPS"), None);
    assert_eq!(format_of("lp"), None);
    assert_eq!(format_of(""), None);
}
