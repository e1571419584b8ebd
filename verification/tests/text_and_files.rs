use genvm::caching::{det_non_det_precompiled_suffix, path_in_zip_to_hash, PRECOMPILE_DIR_NAME};
use genvm::contract_code::{contract_files, runner_comment, ContractCodeError};
use genvm::string_templater::{patch_str, AnyMap};
use genvm::vfs::{FileContents, FileDescriptor, VFS};

fn vars() -> Vec<(String, String)> {
    vec![
        ("name".to_string(), "world".to_string()),
        ("a_1".to_string(), "X".to_string()),
        ("name".to_string(), "shadowed".to_string()),
    ]
}

#[test]
fn template_replaces_placeholders() {
    assert_eq!(patch_str(&vars(), "hello ${name}!"), Ok("hello world!".to_string()));
    assert_eq!(patch_str(&vars(), "${a_1}${a_1}"), Ok("XX".to_string()));
    assert_eq!(patch_str(&vars(), "no placeholders"), Ok("no placeholders".to_string()));
    assert_eq!(patch_str(&vars(), "$name ${ name} ${na-me}"), Ok("$name ${ name} ${na-me}".to_string()));
    assert_eq!(patch_str(&vars(), "${${name}"), Ok("${world".to_string()));
}

#[test]
fn template_missing_variable_is_error() {
    assert!(patch_str(&vars(), "${missing}").is_err());
    assert!(patch_str(&vars(), "${}").is_err());
    assert_eq!(patch_str(&vars(), "${name} ${x} ${y}"), Err("x".to_string()));
}

#[test]
fn pair_lookup_takes_first() {
    assert_eq!(vars().get_from_map("name"), Some("world".to_string()));
    assert_eq!(vars().get_from_map("nope"), None);
}

#[test]
fn vfs_standard_descriptors() {
    let v = VFS::new(vec![1, 2, 3]);
    assert_eq!(v.next_free_descriptor, 3);
    assert!(matches!(v.fds.get(&0), Some(FileDescriptor::File(f)) if f.contents == vec![1, 2, 3] && f.pos == 0));
    assert!(matches!(v.fds.get(&1), Some(FileDescriptor::Stdout)));
    assert!(matches!(v.fds.get(&3), Some(FileDescriptor::Dir { path }) if path.is_empty()));
}

#[test]
fn vfs_descriptor_reuse() {
    let mut v = VFS::new(Vec::new());
    let a = v.place_content(FileContents { contents: vec![7], pos: 0 });
    assert_eq!(a, 4);
    let b = v.place_content(FileContents { contents: vec![8], pos: 0 });
    assert_eq!(b, 5);
    assert!(v.pop_fd(a).is_some());
    assert!(v.pop_fd(a).is_none());
    let c = v.alloc_fd();
    assert_eq!(c, a);
    let d = v.alloc_fd();
    assert_eq!(d, 6);
    assert_ne!(c, b);
}

#[test]
fn runner_comments() {
    assert_eq!(
        runner_comment("# { \"Depends\": \"py:1\" }\n#\nprint(1)\n# not this"),
        Ok(" { \"Depends\": \"py:1\" }".to_string())
    );
    assert_eq!(runner_comment("//a\r\n//b\n"), Ok("ab".to_string()));
    assert_eq!(runner_comment("--x"), Ok("x".to_string()));
    assert_eq!(runner_comment("print(1)"), Err(ContractCodeError::NoRunnerComment));
}

#[test]
fn contract_archives() {
    let files = contract_files(b"\0asm\x01\0\0\0", true).unwrap();
    assert_eq!(files[0].name, "runner.json");
    assert_eq!(files[0].contents, b"{ \"StartWasm\": \"file.wasm\" }".to_vec());
    assert_eq!(files[1].name, "file.wasm");
    let files = contract_files(b"#abc\ncode", false).unwrap();
    assert_eq!(files[0].contents, b"abc".to_vec());
    assert_eq!(files[1].name, "file");
    assert_eq!(files[1].contents, b"#abc\ncode".to_vec());
    assert_eq!(contract_files(&[0xff, 0xfe], false).err(), Some(ContractCodeError::InvalidContract));
    assert_eq!(contract_files(b"code", false).err(), Some(ContractCodeError::NoRunnerComment));
}

#[test]
fn cache_names() {
    assert_eq!(PRECOMPILE_DIR_NAME, "pc");
    let s = det_non_det_precompiled_suffix();
    assert_eq!(s.det, "det");
    assert_eq!(s.non_det, "non-det");
    // SHA3-224 of the empty input, base32 without padding
    let h = path_in_zip_to_hash("");
    assert_eq!(h.len(), 45);
    assert_eq!(h, "NNHAGQRWM7N3OO3OCVCU6DVRVPKFS742DMDY4P23LJV4O");
    assert_ne!(path_in_zip_to_hash("a.wasm"), path_in_zip_to_hash("b.wasm"));
}
