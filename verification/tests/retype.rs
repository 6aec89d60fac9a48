use iodd::cli::{Presentation, RetypeArgs};
use iodd::cmd::retype::{check_target, renamed_line, run, with_extension, Found, Retype};

fn args(path: &str, to: Presentation) -> RetypeArgs {
    RetypeArgs {
        path: path.to_string(),
        to,
        force: false,
    }
}

#[test]
fn extension_swap_preserves_dotted_stems_and_mode_tags() {
    assert_eq!(
        with_extension("/a/Win11 23H2.v2.vhd", "rmd"),
        "/a/Win11 23H2.v2.rmd"
    );
    assert_eq!(with_extension("/a/disk&DW.rmd", "vhd"), "/a/disk&DW.vhd");
}

#[test]
fn retype_renames_without_touching_bytes() {
    let r = run(&args("/d/disk.vhd", Presentation::Removable), Found::File).expect("ok");
    assert_eq!(r, Retype::Rename("/d/disk.rmd".to_string()));
    assert_eq!(renamed_line("/d/disk.vhd", "/d/disk.rmd"), "/d/disk.vhd -> /d/disk.rmd");
}

#[test]
fn retype_round_trips() {
    let there = run(&args("/d/rt.vhd", Presentation::Removable), Found::File).expect("there");
    let Retype::Rename(rmd) = there else {
        panic!("renames");
    };
    assert_eq!(rmd, "/d/rt.rmd");
    let back = run(&args(&rmd, Presentation::Fixed), Found::File).expect("back");
    assert_eq!(back, Retype::Rename("/d/rt.vhd".to_string()));
    let loud = run(&args("/d/RT.VHD", Presentation::Removable), Found::File).expect("loud");
    assert_eq!(loud, Retype::Rename("/d/RT.rmd".to_string()));
}

#[test]
fn retype_is_a_no_op_when_already_the_target_type() {
    let r = run(&args("/d/same.vhd", Presentation::Fixed), Found::File).expect("ok");
    assert_eq!(
        r,
        Retype::Nothing("/d/same.vhd is already .vhd; nothing to do".to_string())
    );
    let upper = run(&args("/d/SAME.RMD", Presentation::Removable), Found::File).expect("ok");
    assert!(matches!(upper, Retype::Nothing(_)));
}

#[test]
fn retype_refuses_to_clobber_an_existing_target() {
    let e = check_target("/d/clash.rmd", true).expect_err("refused");
    assert_eq!(e.exit_code(), 2);
    assert_eq!(e.message(), "/d/clash.rmd already exists (use --force to overwrite)");
    assert!(check_target("/d/clash.rmd", false).is_ok());
}

#[test]
fn retype_rejects_other_extensions() {
    let e = run(&args("/d/image.iso", Presentation::Removable), Found::File).expect_err("refused");
    assert_eq!(e.exit_code(), 1);
    assert_eq!(
        e.message(),
        "/d/image.iso has extension .iso; retype only converts between .vhd and .rmd"
    );
    let e = run(&args("/d/image", Presentation::Fixed), Found::File).expect_err("refused");
    assert_eq!(
        e.message(),
        "/d/image has no extension; retype only converts between .vhd and .rmd"
    );
}

#[test]
fn retype_reports_a_missing_file() {
    let e = run(&args("/nonexistent-zzz.vhd", Presentation::Removable), Found::Nothing)
        .expect_err("missing");
    assert_eq!(e.exit_code(), 1);
    assert_eq!(e.message(), "/nonexistent-zzz.vhd: entity not found");
}

#[test]
fn retype_refuses_a_directory() {
    let e = run(&args("/d/dir.vhd", Presentation::Removable), Found::Directory).expect_err("dir");
    assert_eq!(e.message(), "/d/dir.vhd is a directory");
}
