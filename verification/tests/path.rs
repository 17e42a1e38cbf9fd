use lead_build::path::VirtPath;
use std::path::PathBuf;

#[test]
fn test_step_down() {
    let path = VirtPath::new("root");
    assert_eq!(path.to_string().as_str(), "[root]/$");
    let path = path.step("test").unwrap();
    assert_eq!(path.to_string().as_str(), "[root]/$/test");
    let path = path.step("b").unwrap();
    assert_eq!(path.to_string().as_str(), "[root]/$/test/b");
    let path = path.step("..").unwrap();
    assert_eq!(path.to_string().as_str(), "[root]/$/test");
    let path = path.step(".").unwrap();
    assert_eq!(path.to_string().as_str(), "[root]/$/test");
    let path = path.step("..").unwrap();
    assert_eq!(path.to_string().as_str(), "[root]/$");
    assert!(path.step("..").is_err());
}

#[test]
fn test_lock() {
    let path = VirtPath::new("root");
    assert_eq!(path.to_string().as_str(), "[root]/$");
    let path = path.step("test").unwrap();
    assert_eq!(path.to_string().as_str(), "[root]/$/test");
    let path = path.lock();
    assert_eq!(path.to_string().as_str(), "[root]/test/$");
    assert!(path.step("..").is_err());
}

#[test]
fn test_relock() {
    let path = VirtPath::new("root");
    assert_eq!(path.to_string().as_str(), "[root]/$");
    let path = path.step("test").unwrap();
    assert_eq!(path.to_string().as_str(), "[root]/$/test");
    let path = path.lock();
    assert_eq!(path.to_string().as_str(), "[root]/test/$");
    let path = path.step("b").unwrap();
    assert_eq!(path.to_string().as_str(), "[root]/test/$/b");
    let path = path.lock();
    assert_eq!(path.to_string().as_str(), "[root]/test/b/$");
}

#[test]
fn test_path_root_eq() {
    let path_a1 = VirtPath::new("a");
    let path_a2 = VirtPath::new("a");
    let path_b = VirtPath::new("b");
    assert_eq!(path_a1, path_a2);
    assert_ne!(path_a1, path_b);
    assert_ne!(path_a2, path_b);
}

#[test]
fn test_path_path_eq() {
    let base = VirtPath::new("a");
    let cur = VirtPath::new("a");
    let cur = cur.step("test").unwrap();
    assert_ne!(base, cur);
    let cur = cur.step("..").unwrap();
    assert_eq!(base, cur);
}

#[test]
fn test_virtpath_to_path_buf() {
    let virtpath_a = "./test_a";
    let virtpath_b = "./test_b";

    assert_eq!(
        PathBuf::from(VirtPath::virtualize(virtpath_a, "a").to_path_buf()),
        PathBuf::from("./test_a")
    );

    assert_eq!(
        PathBuf::from(
            VirtPath::virtualize(virtpath_a, "a")
                .step("hej")
                .unwrap()
                .to_path_buf()
        ),
        PathBuf::from("./test_a/hej")
    );

    assert_eq!(
        PathBuf::from(
            VirtPath::virtualize(virtpath_a, "a")
                .step("hej")
                .unwrap()
                .lock()
                .to_path_buf()
        ),
        PathBuf::from("./test_a/hej")
    );

    assert_eq!(
        PathBuf::from(
            VirtPath::virtualize(virtpath_b, "b")
                .step("hej")
                .unwrap()
                .parent()
                .unwrap()
                .to_path_buf()
        ),
        PathBuf::from("./test_b")
    );
}

#[test]
fn test_from_path() {
    let virtpath = VirtPath::virtualize("./test/file.txt", "root");
    assert_eq!(
        virtpath,
        VirtPath::from_root_and_file("./test", "file.txt", "root")
    );
}

#[test]
fn test_translate() {
    let src_dir = VirtPath::virtualize("./src", "src");
    let build_dir = VirtPath::virtualize("./build", "build")
        .step("subproj")
        .unwrap();

    let src_file = src_dir
        .clone()
        .step("lib")
        .unwrap()
        .step("source.c")
        .unwrap();
    let exp_obj_file = build_dir
        .clone()
        .step("lib")
        .unwrap()
        .step("source.c")
        .unwrap();

    assert_eq!(src_file.translate(&src_dir, &build_dir), Some(exp_obj_file));
}

#[test]
fn test_translate_invalid_root() {
    let src_dir = VirtPath::virtualize("./src", "src");
    let build_dir = VirtPath::virtualize("./build", "build")
        .step("subproj")
        .unwrap();

    let src_subdir = src_dir.clone().step("otherdir").unwrap();

    let src_file = src_dir
        .clone()
        .step("lib")
        .unwrap()
        .step("source.c")
        .unwrap();

    assert_eq!(src_file.translate(&src_subdir, &build_dir), None);
}

#[test]
fn test_apply_parts() {
    assert_eq!(
        VirtPath::new("root")
            .step("test")
            .unwrap()
            .step("src.s")
            .unwrap(),
        VirtPath::new("root").apply("/test/src.s").unwrap()
    )
}

#[test]
fn test_apply_suffix() {
    assert_eq!(
        VirtPath::new("root").step("test.o").unwrap(),
        VirtPath::new("root")
            .step("test")
            .unwrap()
            .apply(".o")
            .unwrap()
    )
}

#[test]
fn test_add_suffix() {
    assert_eq!(
        VirtPath::new("root").step("test.o").unwrap(),
        VirtPath::new("root")
            .step("test")
            .unwrap()
            .add_suffix(".o")
            .unwrap()
    )
}

#[test]
fn test_add_suffix_only_last_element() {
    assert_eq!(
        VirtPath::new("root")
            .step("dir")
            .unwrap()
            .step("file.o")
            .unwrap(),
        VirtPath::new("root")
            .step("dir")
            .unwrap()
            .step("file")
            .unwrap()
            .add_suffix(".o")
            .unwrap()
    )
}

#[test]
fn test_remove_suffix() {
    let base: VirtPath = VirtPath::new("root");
    assert_eq!(
        base.clone()
            .step("src.s")
            .unwrap()
            .remove_suffix(".s")
            .unwrap(),
        base.clone().step("src").unwrap()
    )
}

#[test]
fn test_remove_suffix_fail() {
    let base: VirtPath = VirtPath::new("root");
    assert!(base.step("src.s").unwrap().remove_suffix(".c").is_err())
}

#[test]
fn apply_without_unlocked_component_fails() {
    assert!(VirtPath::new("root").apply(".o").is_err());
    assert_eq!(
        VirtPath::new("root").apply("/a").unwrap(),
        VirtPath::new("root").step("a").unwrap()
    );
}

#[test]
fn rebase_gives_the_relative_path() {
    let base = VirtPath::virtualize("/x/build", "b");
    let path = VirtPath::virtualize("/x/src", "s").step("a.c").unwrap();
    assert_eq!(path.to_path_buf_rebase(&base).unwrap(), "../src/a.c");
}

#[test]
fn try_virtualize_without_file_name_is_none() {
    assert!(VirtPath::try_virtualize("/", "r").is_none());
    assert!(VirtPath::try_virtualize("./x", "r").is_some());
}

#[test]
fn lock_then_parent_fails() {
    let path = VirtPath::new("root").step("a").unwrap().lock();
    let err = path.parent().unwrap_err();
    assert_eq!(err.msg, "Parent of [root]/a/$ locked");
}

#[test]
fn path_law_step_down_then_up_is_the_same_path() {
    let base = VirtPath::new("root").step("a").unwrap().lock().step("b").unwrap();
    let back = base.clone().step("c.txt").unwrap().step("..").unwrap();
    assert_eq!(back, base);
}

#[test]
fn path_law_remove_added_suffix_is_the_same_path() {
    let p = VirtPath::new("root").step("main").unwrap();
    let q = p.add_suffix(".o").unwrap();
    assert_eq!(q.to_string(), "[root]/$/main.o");
    assert_eq!(q.remove_suffix(".o").unwrap(), p);
    assert!(q.remove_suffix(".c").is_err());
}

#[test]
fn path_law_translate_back_is_the_same_path() {
    let src = VirtPath::virtualize("./src", "src");
    let out = VirtPath::virtualize("./build", "build").step("sub").unwrap();
    let file = src.clone().step("lib").unwrap().step("a.c").unwrap();
    let moved = file.clone().translate(&src, &out).unwrap();
    assert_eq!(moved.to_string(), "[build]/$/build/sub/lib/a.c");
    assert_eq!(moved.translate(&out, &src).unwrap(), file);
}
