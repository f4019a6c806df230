use rye::auth::{SealError, Secret};
use rye::{
    decompress_archive, env_var_names, expand_env_vars, format_requirement, plan_entry,
    render_requirement, sanitize_entry_path, substitute_env_vars, CommandOutput, EntryPlan,
    ExtractError, QuietExit, RequirementText, VersionOrUrlText,
};

#[test]
fn test_quiet_exit_display() {
    let quiet_exit = QuietExit(0);
    assert_eq!("exit with 0", quiet_exit.to_string());
}

#[test]
fn quiet_exit_negative_and_large_statuses() {
    assert_eq!("exit with -1", QuietExit(-1).to_string());
    assert_eq!("exit with 2147483647", QuietExit(i32::MAX).to_string());
    assert_eq!("exit with -2147483648", QuietExit(i32::MIN).to_string());
    assert_eq!("exit with 120", QuietExit(120).to_string());
}

#[test]
fn test_format_requirement_simple() {
    let req: pep508_rs::Requirement = "foo>=1.0.0".parse().unwrap();
    assert_eq!("foo>=1.0.0", format_requirement(&req).to_string());
}

#[test]
fn test_format_requirement_complex() {
    let req: pep508_rs::Requirement = "foo[extra1,extra2]>=1.0.0,<2.0.0; python_version<'3.8'"
        .parse()
        .unwrap();
    assert_eq!(
        "foo[extra1,extra2]>=1.0.0, <2.0.0 ; python_version < '3.8'",
        format_requirement(&req).to_string()
    );
}

#[test]
fn test_format_requirement_file_path() {
    let req: pep508_rs::Requirement = "foo @ file:///${PROJECT_ROOT}/foo".parse().unwrap();
    assert_eq!(
        format_requirement(&req).to_string(),
        "foo @ file:///${PROJECT_ROOT}/foo"
    );
}

#[test]
fn render_requirement_from_parts() {
    let t = RequirementText {
        name: "bar".to_string(),
        extras: Some(vec!["a".to_string()]),
        version_or_url: Some(VersionOrUrlText::Url("https://x.org/%7BV%7D/%7b".to_string())),
        marker: Some("os_name == 'nt'".to_string()),
    };
    assert_eq!("bar[a] @ https://x.org/{V}/%7b ; os_name == 'nt'", render_requirement(&t));
    let bare = RequirementText {
        name: "baz".to_string(),
        extras: None,
        version_or_url: Some(VersionOrUrlText::Specifiers(vec![])),
        marker: None,
    };
    assert_eq!("baz", render_requirement(&bare));
}

#[test]
fn test_command_output_defaults() {
    assert_eq!(CommandOutput::Normal, CommandOutput::default());
}

#[test]
fn test_command_output_from_quiet_and_verbose() {
    let quiet = true;
    let verbose = true;

    assert_eq!(
        CommandOutput::Quiet,
        CommandOutput::from_quiet_and_verbose(quiet, false)
    );
    assert_eq!(
        CommandOutput::Verbose,
        CommandOutput::from_quiet_and_verbose(false, verbose)
    );
    assert_eq!(
        CommandOutput::Normal,
        CommandOutput::from_quiet_and_verbose(false, false)
    );
    assert_eq!(
        CommandOutput::Quiet,
        CommandOutput::from_quiet_and_verbose(quiet, verbose)
    );
}

#[test]
fn test_expand_env_vars_no_expansion() {
    let input = "This string has no env vars";
    let output = expand_env_vars(input, |_| None);
    assert_eq!(input, output);
}

#[test]
fn test_expand_env_vars_with_expansion() {
    let input = "This string has an env var: ${EXAMPLE_VAR}";
    let output = expand_env_vars(input, |var| {
        if var == "EXAMPLE_VAR" {
            Some("Example value".to_string())
        } else {
            None
        }
    });
    assert_eq!("This string has an env var: Example value", output);
}

#[test]
fn expand_single_reference_with_and_without_value() {
    let with = expand_env_vars("a${X}b", |v| if v == "X" { Some("Y".to_string()) } else { None });
    assert_eq!("aYb", with);
    let without = expand_env_vars("a${X}b", |_| None);
    assert_eq!("ab", without);
}

#[test]
fn expand_plain_text_never_asks_the_resolver() {
    let out = expand_env_vars("plain text", |_| panic!("resolver called"));
    assert_eq!("plain text", out);
}

#[test]
fn expand_leaves_malformed_references_alone() {
    let out = expand_env_vars("${} ${lower} $X ${A-B} ${OK_1}${OK_1", |v| Some(format!("<{}>", v)));
    assert_eq!("${} ${lower} $X ${A-B} <OK_1>${OK_1", out);
}

#[test]
fn env_var_names_in_order() {
    assert_eq!(
        vec!["A".to_string(), "B_2".to_string(), "A".to_string()],
        env_var_names("x${A}y${B_2}${A}")
    );
    assert!(env_var_names("none here").is_empty());
}

#[test]
fn substitute_uses_values_in_order_then_nothing() {
    let values = vec!["1".to_string(), "2".to_string()];
    assert_eq!("1-2-", substitute_env_vars("${A}-${B}-${C}", &values));
}

#[test]
fn parent_traversal_entry_is_skipped() {
    assert_eq!(None, sanitize_entry_path("/tmp/out", "../../etc/passwd", 0));
    assert!(matches!(plan_entry("/tmp/out", "../../etc/passwd", 0), EntryPlan::Skip));
}

#[test]
fn stripped_entry_lands_under_root() {
    assert_eq!(
        Some("/tmp/out/bin/tool".to_string()),
        sanitize_entry_path("/tmp/out", "pkg-1.0/bin/tool", 1)
    );
    match plan_entry("/tmp/out", "pkg-1.0/bin/tool", 1) {
        EntryPlan::Unpack { path, parent } => {
            assert_eq!("/tmp/out/bin/tool", path);
            assert_eq!("/tmp/out/bin", parent);
        }
        EntryPlan::Skip => panic!("entry skipped"),
    }
}

#[test]
fn absolute_entry_is_skipped_unless_its_root_is_stripped() {
    assert_eq!(None, sanitize_entry_path("/tmp/out", "/etc/passwd", 0));
    assert_eq!(
        Some("/tmp/out/etc/passwd".to_string()),
        sanitize_entry_path("/tmp/out", "/etc/passwd", 1)
    );
}

#[test]
fn empty_remainder_is_skipped() {
    assert_eq!(None, sanitize_entry_path("/tmp/out", "pkg-1.0/", 1));
    assert_eq!(None, sanitize_entry_path("/tmp/out", "pkg-1.0/bin", 5));
    assert_eq!(None, sanitize_entry_path("/tmp/out", "", 0));
    assert_eq!(None, sanitize_entry_path("/tmp/out", "a/..", 0));
}

#[test]
fn dots_and_slashes_are_normalised() {
    assert_eq!(
        Some("/tmp/out/b/c".to_string()),
        sanitize_entry_path("/tmp/out", "./pkg//a/../b/./c", 2)
    );
    assert_eq!(None, sanitize_entry_path("/tmp/out", "pkg/../../x", 0));
    assert_eq!(
        Some("/tmp/out/x".to_string()),
        sanitize_entry_path("/tmp/out/", "x", 0)
    );
}

#[test]
fn seal_then_open_round_trips() {
    let key = [7u8; 32];
    let nonce = [1u8; 12];
    let plain = b"registry-password".to_vec();
    let sealed = Secret::from(plain.clone()).encrypt_with_key(&key, nonce).unwrap();
    assert_eq!(plain.len() + 16, sealed.len());
    assert_ne!(&plain[..], &sealed[..plain.len()]);
    let opened = Secret::from(sealed).decrypt_with_key(&key, nonce);
    assert_eq!(Some(plain), opened);
}

#[test]
fn seal_empty_plaintext_round_trips() {
    let key = [0u8; 32];
    let nonce = [0u8; 12];
    let sealed = Secret::from(Vec::new()).encrypt_with_key(&key, nonce).unwrap();
    assert_eq!(16, sealed.len());
    assert_eq!(Some(Vec::new()), Secret::from(sealed).decrypt_with_key(&key, nonce));
}

#[test]
fn flipped_bit_fails_to_open() {
    let key = [9u8; 32];
    let nonce = [2u8; 12];
    let sealed = Secret::from(b"token".to_vec()).encrypt_with_key(&key, nonce).unwrap();
    for i in 0..sealed.len() {
        let mut bad = sealed.clone();
        bad[i] ^= 0x10;
        assert_eq!(None, Secret::from(bad).decrypt_with_key(&key, nonce));
    }
}

#[test]
fn wrong_key_or_nonce_fails_to_open() {
    let nonce = [3u8; 12];
    let sealed = Secret::from(b"token".to_vec()).encrypt_with_key(&[1u8; 32], nonce).unwrap();
    assert_eq!(None, Secret::from(sealed.clone()).decrypt_with_key(&[2u8; 32], nonce));
    assert_eq!(None, Secret::from(sealed.clone()).decrypt_with_key(&[1u8; 32], [4u8; 12]));
    assert_eq!(None, Secret::from(sealed).decrypt_with_key(&[1u8; 16], nonce));
    assert_eq!(None, Secret::from(vec![0u8; 5]).decrypt_with_key(&[1u8; 32], nonce));
}

#[test]
fn short_key_is_refused() {
    let r = Secret::from(b"x".to_vec()).encrypt_with_key(&[1u8; 16], [0u8; 12]);
    assert_eq!(Err(SealError::KeyLength), r);
}

#[test]
fn secret_exposes_what_it_holds() {
    let s = Secret::from(vec![1u8, 2]);
    assert_eq!(&vec![1u8, 2], s.expose());
    assert_eq!(2, s.len());
}

#[test]
fn decompress_round_trips_zstd() {
    let data = b"tar bytes tar bytes tar bytes".to_vec();
    let compressed = zstd::stream::encode_all(&data[..], 3).unwrap();
    assert_ne!(compressed, data);
    assert_eq!(Ok(data), decompress_archive(&compressed));
}

#[test]
fn decompress_refuses_garbage() {
    assert_eq!(Err(ExtractError::Decode), decompress_archive(b"not zstd at all"));
}

#[test]
fn requirement_parts_follow_the_parsed_requirement() {
    let req: pep508_rs::Requirement = "foo[a,b]>=1.0; os_name == 'nt'".parse().unwrap();
    let t = RequirementText::of(&req);
    assert_eq!("foo", t.name);
    assert_eq!(Some(vec!["a".to_string(), "b".to_string()]), t.extras);
    assert!(matches!(t.version_or_url, Some(VersionOrUrlText::Specifiers(ref s)) if s.len() == 1));
    assert!(t.marker.is_some());
}

#[test]
fn entry_planned_against_an_empty_root_is_relative() {
    match plan_entry("", "pkg-1.0/bin/tool", 1) {
        EntryPlan::Unpack { path, parent } => {
            assert_eq!("bin/tool", path);
            assert_eq!("bin", parent);
        }
        EntryPlan::Skip => panic!("entry skipped"),
    }
    assert!(matches!(plan_entry("", "pkg-1.0/../../x", 1), EntryPlan::Skip));
}

#[test]
fn decompress_refuses_truncated_stream() {
    let compressed = zstd::stream::encode_all(&b"some tar bytes"[..], 3).unwrap();
    let cut = &compressed[..compressed.len() - 3];
    assert_eq!(Err(ExtractError::Decode), decompress_archive(cut));
}

#[test]
fn opened_plaintext_seals_back_to_the_blob() {
    let key = [5u8; 32];
    let nonce = [6u8; 12];
    let sealed = Secret::from(b"abc".to_vec()).encrypt_with_key(&key, nonce).unwrap();
    let opened = Secret::from(sealed.clone()).decrypt_with_key(&key, nonce).unwrap();
    assert_eq!(Ok(sealed), Secret::from(opened).encrypt_with_key(&key, nonce));
}

#[test]
fn deref_gives_the_held_value() {
    let s = Secret::from(vec![9u8, 8, 7]);
    assert_eq!(vec![9u8, 8, 7], *s);
}
