use uifs::logger::Config;
use uifs::{mk_err, mk_err_str};

#[test]
fn error_text_ends_with_description() {
    let e = std::io::Error::new(std::io::ErrorKind::Other, "boom");
    let s = mk_err(e, "while reading");
    assert!(s.ends_with("; while reading"));
    assert!(s.contains("boom"));
}

#[test]
fn error_str_text_ends_with_description() {
    let e = "x".parse::<u8>().unwrap_err();
    let s = mk_err_str(e, "parsing");
    assert!(s.ends_with("; parsing"));
    assert!(s.len() > "; parsing".len());
}

#[test]
fn config_keeps_its_settings() {
    let c = Config::new("./log", true, false);
    assert_eq!(c.dir(), "./log");
    assert!(c.to_file());
    assert!(!c.to_console());
}
