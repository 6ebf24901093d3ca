use pdf_slim::compress::{output_path_for, temp_path_for};
use pdf_slim::utils::{backup_path, default_output_path};

#[test]
fn default_output_path_replaces_pdf_suffix() {
    assert_eq!(default_output_path("/tmp/docs/test.pdf"), "/tmp/docs/test.slim.pdf");
    assert_eq!(default_output_path("dir/test1.pdf"), "dir/test1.slim.pdf");
}

#[test]
fn default_output_path_in_current_directory() {
    assert_eq!(default_output_path("test.pdf"), "test.slim.pdf");
}

#[test]
fn default_output_path_other_suffix_is_appended() {
    assert_eq!(default_output_path("dir/scan.PDF"), "dir/scan.PDF.slim.pdf");
    assert_eq!(default_output_path("dir/report"), "dir/report.slim.pdf");
}

#[test]
fn backup_path_next_to_input() {
    assert_eq!(backup_path("/tmp/pdf-slim-test-force/test.pdf"), "/tmp/pdf-slim-test-force/test.pdf-slim-bak");
    assert_eq!(backup_path("test.pdf"), "test.pdf-slim-bak");
}

#[test]
fn temp_path_replaces_extension() {
    assert_eq!(temp_path_for("dir/test.slim.pdf"), "dir/test.slim..tmp");
    assert_eq!(temp_path_for("dir/test.pdf"), "dir/test..tmp");
}

#[test]
fn output_path_force_overwrites_input() {
    assert_eq!(output_path_for("dir/test.pdf", true, None), Some("dir/test.pdf".to_string()));
}

#[test]
fn output_path_default_is_slim_copy() {
    assert_eq!(output_path_for("dir/test.pdf", false, None), Some("dir/test.slim.pdf".to_string()));
}

#[test]
fn output_path_needs_a_file_name() {
    assert_eq!(output_path_for("/", false, None), None);
    assert_eq!(output_path_for("dir/..", false, None), None);
}

#[test]
fn write_plan_default_mode() {
    let plan = pdf_slim::compress::plan_write("dir/test.pdf", false, None).unwrap();
    assert_eq!(plan.output_path, "dir/test.slim.pdf");
    assert_eq!(plan.temp_path, "dir/test.slim..tmp");
    assert_eq!(plan.backup_path, None);
    assert!(plan.skip_if_exists);
}

#[test]
fn write_plan_force_mode() {
    let plan = pdf_slim::compress::plan_write("dir/test.pdf", true, None).unwrap();
    assert_eq!(plan.output_path, "dir/test.pdf");
    assert_eq!(plan.temp_path, "dir/test..tmp");
    assert_eq!(plan.backup_path.as_deref(), Some("dir/test.pdf-slim-bak"));
    assert!(!plan.skip_if_exists);
    assert!(pdf_slim::compress::plan_write("/", false, None).is_none());
}

#[test]
fn write_plan_output_option() {
    let plan = pdf_slim::compress::plan_write("dir/in.pdf", false, Some("out.pdf")).unwrap();
    assert_eq!(plan.output_path, "out.pdf");
    assert_eq!(plan.temp_path, "out..tmp");
    assert_eq!(plan.backup_path, None);
    let forced = pdf_slim::compress::plan_write("dir/in.pdf", true, Some("out.pdf")).unwrap();
    assert_eq!(forced.output_path, "out.pdf");
    assert_eq!(forced.backup_path, None);
    assert_eq!(output_path_for("/", false, Some("x.pdf")), Some("x.pdf".to_string()));
}
