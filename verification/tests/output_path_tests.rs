use pve_san_fenced::output_path::validate_output_path;

fn cwd(s: &str) -> Result<String, String> {
    Ok(s.to_string())
}

const LOCATION: &str = "Output path must be located within /tmp, /var/tmp, or the current working directory";
const TRAVERSAL: &str = "Path traversal (..) is not allowed in output path";

#[test]
fn output_path_dev_null_is_kept_as_given() {
    assert_eq!(validate_output_path("/dev/null", &cwd("/home/u")), Ok("/dev/null".to_string()));
    assert_eq!(validate_output_path("/dev//null/", &cwd("/home/u")), Ok("/dev//null/".to_string()));
}

#[test]
fn output_path_under_tmp_or_cwd() {
    assert_eq!(validate_output_path("/tmp/out.json", &cwd("/home/u")), Ok("/tmp/out.json".to_string()));
    assert_eq!(validate_output_path("/var/tmp/a", &cwd("/home/u")), Ok("/var/tmp/a".to_string()));
    assert_eq!(validate_output_path("out.json", &cwd("/home/u")), Ok("/home/u/out.json".to_string()));
    assert_eq!(validate_output_path("./a/./b", &cwd("/home/u/")), Ok("/home/u/./a/./b".to_string()));
    assert_eq!(validate_output_path("/home/u/x", &cwd("/home/u")), Ok("/home/u/x".to_string()));
}

#[test]
fn output_path_rejections() {
    assert_eq!(validate_output_path("/tmpx/y", &cwd("/home/u")), Err(LOCATION.to_string()));
    assert_eq!(validate_output_path("/etc/x", &cwd("/home/u")), Err(LOCATION.to_string()));
    assert_eq!(validate_output_path("/home/user/x", &cwd("/home/u")), Err(LOCATION.to_string()));
    assert_eq!(validate_output_path("/tmp/../etc/passwd", &cwd("/home/u")), Err(TRAVERSAL.to_string()));
    assert_eq!(validate_output_path("../x", &cwd("/home/u")), Err(TRAVERSAL.to_string()));
    assert_eq!(
        validate_output_path("out.json", &Err("boom".to_string())),
        Err("Failed to get current directory: boom".to_string())
    );
}

#[test]
fn output_path_matches_std_path_reading() {
    for (p, c) in [("/tmp/a", "/h"), ("/tmp//a/", "/h"), ("x/y", "/tmp"), ("/var/tmpx", "/h"), ("/h/./z", "/h")] {
        let abs = if p.starts_with('/') { std::path::PathBuf::from(p) } else { std::path::Path::new(c).join(p) };
        let in_place = abs.starts_with("/tmp") || abs.starts_with("/var/tmp") || abs.starts_with(c);
        let r = validate_output_path(p, &cwd(c));
        assert_eq!(r.is_ok(), in_place, "{p} in {c}");
        if let Ok(s) = r {
            assert_eq!(std::path::PathBuf::from(s), abs);
        }
    }
}
