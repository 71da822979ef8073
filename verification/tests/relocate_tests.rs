use zerobrew::binpatch::{is_elf_magic, is_macho_magic, head_has_nul, patch_macho_embedded};
use zerobrew::elf::{
    choose_interpreter, compute_runpath, detect_glibc_ld, expand_interpreter, first_ld_in,
    is_ld_so_name, join_colon, newest_version, system_ld_candidates, GlibcVersionDir,
};
use zerobrew::pathfix::{fix_version_in_path, patch_path};
use zerobrew::relocate::{patch_text_content, patch_text_content_full, patch_text_tokens};

fn chars(s: &str) -> Vec<char> {
    s.chars().collect()
}

fn string_of(v: &Vec<char>) -> String {
    v.iter().collect()
}

#[test]
fn test_patch_text_file_strings() {
    let content = r#"#!/bin/bash
export GIT_EXEC_PATH=/opt/homebrew/opt/git/libexec/git-core
export PREFIX=@@HOMEBREW_PREFIX@@
export CELLAR=@@HOMEBREW_CELLAR@@
export LIBRARY=@@HOMEBREW_LIBRARY@@
export PERL=@@HOMEBREW_PERL@@
echo "Hello from $PREFIX"
"#;

    let new_prefix = "/opt/zerobrew/prefix";
    let new_cellar = format!("{}/Cellar", new_prefix);

    let patched = patch_text_content_full(content, new_prefix, &new_cellar).unwrap();
    assert!(patched.contains(new_prefix));
    assert!(!patched.contains("/opt/homebrew"));
    assert!(!patched.contains("@@HOMEBREW_"));
    assert!(patched.contains("/opt/zerobrew/prefix/opt/git/libexec/git-core"));
    assert!(patched.contains("/opt/zerobrew/prefix/Cellar"));
    assert!(patched.contains("/opt/zerobrew/prefix/Library"));
    assert!(patched.contains("/usr/bin/perl"));
}

#[test]
fn text_pass_replaces_both_tokens_exactly() {
    let out = patch_text_content(
        "cd @@HOMEBREW_PREFIX@@ && ls @@HOMEBREW_CELLAR@@/jq",
        "/zb/prefix",
        "/zb/prefix/Cellar",
    )
    .unwrap();
    assert_eq!(out, "cd /zb/prefix && ls /zb/prefix/Cellar/jq");
}

#[test]
fn text_pass_skips_files_without_tokens() {
    assert!(patch_text_content("plain text, nothing to do", "/zb", "/zb/Cellar").is_none());
}

#[test]
fn text_pass_is_idempotent_on_real_prefixes() {
    let first = patch_text_content(
        "prefix=@@HOMEBREW_PREFIX@@ cellar=@@HOMEBREW_CELLAR@@",
        "/zb/prefix",
        "/zb/prefix/cellar",
    )
    .unwrap();
    // The second pass finds no token and would write nothing.
    assert!(patch_text_content(&first, "/zb/prefix", "/zb/prefix/cellar").is_none());
    assert_eq!(first, "prefix=/zb/prefix cellar=/zb/prefix/cellar");
}

#[test]
fn token_pass_substitutes_all_six_tokens_and_no_prefixes() {
    let content = "p=@@HOMEBREW_PREFIX@@ c=@@HOMEBREW_CELLAR@@ r=@@HOMEBREW_REPOSITORY@@ \
                   l=@@HOMEBREW_LIBRARY@@ pl=@@HOMEBREW_PERL@@ j=@@HOMEBREW_JAVA@@ h=/opt/homebrew";
    let out = patch_text_tokens(content, "/zb", "/zb/Cellar").unwrap();
    assert_eq!(
        out,
        "p=/zb c=/zb/Cellar r=/zb \
                   l=/zb/Library pl=/usr/bin/perl j=/usr/bin/java h=/opt/homebrew"
    );

    // Unlike the hard-coded pass, a literal Homebrew prefix is left alone.
    assert!(patch_text_tokens("path=/opt/homebrew/bin", "/zb", "/zb/Cellar").is_none());
}

#[test]
fn full_text_pass_reports_an_unchanged_file_as_none() {
    assert!(patch_text_content_full("nothing homebrew here", "/zb", "/zb/Cellar").is_none());
}

#[test]
fn test_patch_macho_binary_strings() {
    let old_prefix = "/home/linuxbrew/.linuxbrew";
    let new_prefix = "/opt/zerobrew/prefix";

    let mut contents: Vec<u8> = Vec::new();
    contents.extend_from_slice(b"\xfe\xed\xfa\xcf");
    contents.extend_from_slice(b"some random data\0");
    contents.extend_from_slice(old_prefix.as_bytes());
    contents.extend_from_slice(b"/opt/git/libexec/git-core\0");
    contents.extend_from_slice(b"more data\0");
    contents.extend_from_slice(old_prefix.as_bytes());
    contents.extend_from_slice(b"/lib/libfoo.dylib\0");
    contents.extend_from_slice(b"end\0");

    let patched = patch_macho_embedded(&contents, new_prefix);
    let patched_str = String::from_utf8_lossy(&patched);

    assert!(patched_str.contains(new_prefix));
    assert!(!patched_str.contains(old_prefix));
}

#[test]
fn macho_patch_pads_with_nuls_and_respects_boundaries() {
    // "/usr/local" (10 bytes) -> "/zb" (3 bytes), at a NUL boundary.
    let data = b"x/usr/local\0y".to_vec();
    let out = patch_macho_embedded(&data, "/zb");
    assert_eq!(out, b"x/zb\0\0\0\0\0\0\0\0y".to_vec());

    // No path boundary after the prefix: left alone.
    let data = b"x/usr/localrest".to_vec();
    let out = patch_macho_embedded(&data, "/zb");
    assert_eq!(out, data);
}

#[test]
fn macho_patch_refuses_a_longer_prefix() {
    // "/usr/local" is 10 bytes; the replacement is longer, so the bytes
    // must stay exactly as they were.
    let data = b"pre/usr/local\0post".to_vec();
    let out = patch_macho_embedded(&data, "/much/longer/prefix/than/that");
    assert_eq!(out, data);
}

#[test]
fn magic_numbers_are_recognised() {
    assert!(is_elf_magic(&b"\x7fELF rest".to_vec()));
    assert!(!is_elf_magic(&b"\x7fELx".to_vec()));
    assert!(!is_elf_magic(&b"\x7fE".to_vec()));

    assert!(is_macho_magic(&b"\xfe\xed\xfa\xce!".to_vec()));
    assert!(is_macho_magic(&b"\xfe\xed\xfa\xcf".to_vec()));
    assert!(is_macho_magic(&b"\xca\xfe\xba\xbe".to_vec()));
    assert!(is_macho_magic(&b"\xce\xfa\xed\xfe".to_vec()));
    assert!(is_macho_magic(&b"\xcf\xfa\xed\xfe".to_vec()));
    assert!(!is_macho_magic(&b"\x7fELF".to_vec()));

    assert!(head_has_nul(&b"ab\0cd".to_vec()));
    assert!(!head_has_nul(&b"plain text".to_vec()));
}

#[test]
fn version_mismatch_regex_fixes_paths() {
    let pkg_name = "ffmpeg";
    let pkg_version = "8.0.1_2";

    // Test case: path with wrong version
    let old_path = "/opt/zerobrew/prefix/Cellar/ffmpeg/8.0.1_1/lib/libavdevice.62.dylib";
    let fixed = string_of(&fix_version_in_path(&chars(old_path), pkg_name, pkg_version));
    assert_eq!(
        fixed,
        "/opt/zerobrew/prefix/Cellar/ffmpeg/8.0.1_2/lib/libavdevice.62.dylib"
    );

    // Test case: path with correct version (should not change)
    let correct_path = "/opt/zerobrew/prefix/Cellar/ffmpeg/8.0.1_2/lib/libavdevice.62.dylib";
    let fixed2 = string_of(&fix_version_in_path(&chars(correct_path), pkg_name, pkg_version));
    assert_eq!(fixed2, correct_path);

    // Test case: path for different package (should not change)
    let other_path = "/opt/zerobrew/prefix/Cellar/libvpx/1.0.0/lib/libvpx.dylib";
    let fixed3 = string_of(&fix_version_in_path(&chars(other_path), pkg_name, pkg_version));
    assert_eq!(fixed3, other_path);
}

#[test]
fn patch_path_expands_tokens_and_fixes_versions() {
    let r = patch_path(
        "@@HOMEBREW_CELLAR@@/ffmpeg/8.0.1_1/lib/libavcodec.dylib",
        "/zb/Cellar",
        "/zb",
        "ffmpeg",
        "8.0.1_2",
    );
    assert_eq!(
        r,
        Some("/zb/Cellar/ffmpeg/8.0.1_2/lib/libavcodec.dylib".to_string())
    );

    // A path that is already right needs no change.
    assert!(patch_path("/zb/Cellar/ffmpeg/8.0.1_2/lib/x.dylib", "/zb/Cellar", "/zb", "ffmpeg", "8.0.1_2")
        .is_none());
    assert!(patch_path("/usr/lib/libSystem.B.dylib", "/zb/Cellar", "/zb", "ffmpeg", "8.0.1_2")
        .is_none());
}

#[test]
fn runpath_keeps_prefixed_and_origin_entries_and_adds_lib() {
    let olds = vec![
        "@@HOMEBREW_PREFIX@@/lib".to_string(),
        "/opt/homebrew/lib".to_string(),
        "$ORIGIN/../lib".to_string(),
    ];
    let r = compute_runpath(&olds, "/zb", "/zb/lib");
    assert_eq!(r, vec!["/zb/lib".to_string(), "$ORIGIN/../lib".to_string()]);
    assert_eq!(join_colon(&r), "/zb/lib:$ORIGIN/../lib");

    // With no surviving entry the lib path still gets on the list.
    let r = compute_runpath(&vec!["/somewhere/else".to_string()], "/zb", "/zb/lib");
    assert_eq!(r, vec!["/zb/lib".to_string()]);
    assert_eq!(join_colon(&r), "/zb/lib");

    assert_eq!(join_colon(&Vec::new()), "");
}

#[test]
fn interpreter_choice_follows_the_fallback_order() {
    let zb = Some("/zb/Cellar/glibc/2.39/lib/ld-linux-x86-64.so.2".to_string());
    let sys = Some("/lib64/ld-linux-x86-64.so.2".to_string());

    // Placeholder present and the expanded path exists: use it.
    let r = choose_interpreter("@@HOMEBREW_PREFIX@@/lib/ld.so", "/zb", true, &zb, &sys);
    assert_eq!(r, Some("/zb/lib/ld.so".to_string()));

    // Placeholder present but the expanded path is missing: system linker.
    let r = choose_interpreter("@@HOMEBREW_PREFIX@@/lib/ld.so", "/zb", false, &zb, &sys);
    assert_eq!(r, sys);

    // No placeholder: the detected default.
    let r = choose_interpreter("/lib64/ld-linux-x86-64.so.2", "/zb", false, &zb, &sys);
    assert_eq!(r, zb);

    assert_eq!(
        expand_interpreter("@@HOMEBREW_PREFIX@@/ld.so", "/zb"),
        Some("/zb/ld.so".to_string())
    );
    assert!(expand_interpreter("/lib/ld.so", "/zb").is_none());
}

#[test]
fn glibc_detection_picks_the_greatest_version() {
    let versions = vec!["2.38".to_string(), "2.39".to_string()];
    assert_eq!(newest_version(&versions), Some("2.39".to_string()));

    let versions = vec!["2.40".to_string(), "2.38".to_string(), "2.39".to_string()];
    assert_eq!(newest_version(&versions), Some("2.40".to_string()));

    assert!(newest_version(&Vec::new()).is_none());
}

#[test]
fn glibc_detection_falls_back_past_versions_without_a_linker() {
    let dirs = vec![
        GlibcVersionDir {
            version: "2.38".to_string(),
            lib_names: vec!["libc.so.6".to_string(), "ld-linux-x86-64.so.2".to_string()],
        },
        GlibcVersionDir { version: "2.39".to_string(), lib_names: vec!["libc.so.6".to_string()] },
    ];
    // The newest version has no linker: the older one is used.
    assert_eq!(
        detect_glibc_ld(&dirs),
        Some(("2.38".to_string(), "ld-linux-x86-64.so.2".to_string()))
    );

    let dirs = vec![
        GlibcVersionDir {
            version: "2.38".to_string(),
            lib_names: vec!["ld-linux-x86-64.so.2".to_string()],
        },
        GlibcVersionDir {
            version: "2.39".to_string(),
            lib_names: vec!["ld-linux-x86-64.so.2".to_string()],
        },
    ];
    // Both have one: the newest wins.
    assert_eq!(
        detect_glibc_ld(&dirs),
        Some(("2.39".to_string(), "ld-linux-x86-64.so.2".to_string()))
    );

    let dirs = vec![GlibcVersionDir {
        version: "2.39".to_string(),
        lib_names: vec!["libc.so.6".to_string()],
    }];
    assert!(detect_glibc_ld(&dirs).is_none());
}

#[test]
fn ld_so_names_are_recognised() {
    assert!(is_ld_so_name("ld-linux-x86-64.so.2"));
    assert!(is_ld_so_name("ld-linux-aarch64.so.1"));
    assert!(is_ld_so_name("ld64.so.2"));
    assert!(is_ld_so_name("ld-linux.so.2"));
    assert!(!is_ld_so_name("libc.so.6"));
    assert!(!is_ld_so_name("ld-linux"));

    let names = vec!["libc.so.6".to_string(), "ld-linux-x86-64.so.2".to_string()];
    assert_eq!(first_ld_in(&names), Some("ld-linux-x86-64.so.2".to_string()));
    assert!(first_ld_in(&vec!["libm.so.6".to_string()]).is_none());
}

#[test]
fn system_ld_candidate_list_is_fixed() {
    let c = system_ld_candidates();
    assert_eq!(c.len(), 10);
    assert_eq!(c[0], "/lib64/ld-linux-x86-64.so.2");
    assert_eq!(c[9], "/lib64/ld64.so.1");
}

#[test]
fn unparseable_elf_is_a_storage_error() {
    let garbage = b"\x7fELF but not really".to_vec();
    let r = zerobrew::elfpatch::elf_read_info(&garbage);
    assert!(matches!(r, Err(zerobrew::ZbError::StoreCorruption { .. })));
}
