//! The configuration surface: names, defaults, filename resolution.

use wort::arg::{resolve_args, Sink};
use wort::material::DiffuseMethod;

#[test]
fn diffuse_method_names_round_trip() {
    for m in [DiffuseMethod::Simple, DiffuseMethod::Lambert, DiffuseMethod::Hemisphere] {
        assert_eq!(DiffuseMethod::from_name(m.name()), Some(m));
    }
    assert_eq!(DiffuseMethod::from_name("lambert"), Some(DiffuseMethod::Lambert));
    assert_eq!(DiffuseMethod::from_name("metal"), None);
    assert_eq!(DiffuseMethod::from_name(""), None);
    assert_eq!(DiffuseMethod::from_name("Lambert"), None);
}

#[test]
fn sink_names_round_trip() {
    for s in [Sink::Window, Sink::File] {
        assert_eq!(Sink::from_name(s.name()), Some(s));
    }
    assert_eq!(Sink::from_name("file"), Some(Sink::File));
    assert_eq!(Sink::from_name("paper"), None);
}

#[test]
fn diffuse_method_cycle_visits_all() {
    let all = DiffuseMethod::all();
    assert_eq!(
        all,
        vec![DiffuseMethod::Simple, DiffuseMethod::Lambert, DiffuseMethod::Hemisphere]
    );
    let mut m = DiffuseMethod::Simple;
    m = m.next();
    assert_eq!(m, DiffuseMethod::Lambert);
    m = m.next();
    assert_eq!(m, DiffuseMethod::Hemisphere);
    m = m.next();
    assert_eq!(m, DiffuseMethod::Simple);
}

#[test]
fn resolve_args_defaults() {
    let a = resolve_args(None, None, None, false);
    assert_eq!(a.output, Sink::Window);
    assert_eq!(a.diffuse_method, DiffuseMethod::Lambert);
    assert_eq!(a.filename, None);
    assert!(!a.verbose);
}

#[test]
fn resolve_args_file_sink_gets_default_filename() {
    let a = resolve_args(Some(Sink::File), None, None, true);
    assert_eq!(a.output, Sink::File);
    assert_eq!(a.filename.as_deref(), Some("image.ppm"));
    assert!(a.verbose);
}

#[test]
fn resolve_args_filename_carries_method() {
    let a = resolve_args(
        Some(Sink::File),
        Some(String::from("render")),
        Some(DiffuseMethod::Hemisphere),
        false,
    );
    assert_eq!(a.filename.as_deref(), Some("render_hemisphere.ppm"));
    let b = resolve_args(None, Some(String::from("x")), None, false);
    assert_eq!(b.filename.as_deref(), Some("x_lambert.ppm"));
}
