use gitsnap::classify::{classify, decide, is_excluded_file, is_excluded_name, needs_content};
use gitsnap::detect::{bytes_wanted, contains_nul, detect, is_binary_file, judge};
use gitsnap::model::{contains_name, Config, Decision, Detector, Entry, Reason, SizeStyle};

fn entry(path: &[&str], is_directory: bool, size_bytes: u64) -> Entry {
    Entry {
        relative_path: path.iter().map(|name| name.to_string()).collect(),
        is_directory,
        size_bytes,
    }
}

fn file(path: &[&str], size_bytes: u64) -> Entry {
    entry(path, false, size_bytes)
}

const TAKEN: Decision = Decision { included: true, reason: Reason::NoReason };

fn left_out(reason: Reason) -> Decision {
    Decision { included: false, reason }
}

#[test]
fn new_configuration_excludes_the_usual_names() {
    let config = Config::new(7, true);
    assert_eq!(config.threshold_bytes, 7);
    assert!(config.include_all);
    assert_eq!(config.excluded_dir_names, vec![".git", "node_modules"]);
    assert_eq!(config.excluded_file_names, vec![".gitignore"]);
    assert_eq!(config.detector, Detector::ContentType);
    assert_eq!(config.size_style, SizeStyle::Plain);
}

#[test]
fn names_are_found_in_a_list() {
    let list = vec!["a".to_string(), "bc".to_string()];
    assert!(contains_name(&list, &"bc".to_string()));
    assert!(!contains_name(&list, &"b".to_string()));
    assert!(!contains_name(&Vec::new(), &"a".to_string()));
}

#[test]
fn larger_than_threshold_is_too_large() {
    let config = Config::new(100, false);
    assert_eq!(decide(&file(&["big"], 101), &config, false), left_out(Reason::TooLarge));
    assert_eq!(decide(&file(&["big"], u64::MAX), &config, false), left_out(Reason::TooLarge));
}

#[test]
fn exactly_at_threshold_is_taken() {
    let config = Config::new(100, false);
    assert_eq!(decide(&file(&["edge"], 100), &config, false), TAKEN);
    assert_eq!(decide(&file(&["edge"], 100), &config, true), left_out(Reason::Binary));
}

#[test]
fn size_is_judged_before_content() {
    let config = Config::new(100, false);
    assert_eq!(decide(&file(&["big"], 101), &config, true), left_out(Reason::TooLarge));
}

#[test]
fn excluded_names_win_over_everything() {
    for include_all in [false, true] {
        let config = Config::new(100, include_all);
        for path in [
            vec![".git"],
            vec![".git", "config"],
            vec!["a", "node_modules", "b", "c.js"],
            vec!["a", ".gitignore"],
            vec![".gitignore"],
        ] {
            let excluded = left_out(Reason::ExcludedName);
            assert_eq!(decide(&file(&path, 1), &config, false), excluded);
            assert_eq!(decide(&file(&path, 1000), &config, true), excluded);
            assert_eq!(decide(&entry(&path, true, 0), &config, false), excluded);
            assert!(is_excluded_name(&file(&path, 1), &config));
        }
    }
}

#[test]
fn excluded_file_names_count_only_as_the_last_name() {
    let config = Config::new(100, false);
    assert_eq!(decide(&file(&[".gitignore", "x"], 1), &config, false), TAKEN);
    assert!(!is_excluded_name(&file(&["git", "gitignore"], 1), &config));
    assert!(!is_excluded_name(&file(&[], 1), &config));
}

#[test]
fn further_names_can_be_excluded() {
    let mut config = Config::new(100, false);
    config.excluded_dir_names.push("target".to_string());
    config.excluded_file_names.push("Cargo.lock".to_string());
    assert!(is_excluded_name(&file(&["target", "debug", "x"], 1), &config));
    assert!(is_excluded_name(&file(&["Cargo.lock"], 1), &config));
    assert!(!is_excluded_name(&file(&["Cargo.lock", "x"], 1), &config));
}

#[test]
fn taking_everything_skips_size_and_content() {
    let config = Config::new(100, true);
    assert_eq!(decide(&file(&["big"], 1_000_000), &config, true), TAKEN);
    assert!(!needs_content(&file(&["big"], 1), &config));
}

#[test]
fn directories_are_always_taken() {
    let config = Config::new(0, false);
    assert_eq!(decide(&entry(&["src"], true, 4096), &config, true), TAKEN);
    assert!(!needs_content(&entry(&["src"], true, 4096), &config));
}

#[test]
fn content_is_needed_only_where_it_decides() {
    let config = Config::new(100, false);
    assert!(needs_content(&file(&["a"], 100), &config));
    assert!(needs_content(&file(&["a"], 0), &config));
    assert!(!needs_content(&file(&["a"], 101), &config));
    assert!(!needs_content(&file(&[".gitignore"], 1), &config));
}

#[test]
fn classification_looks_at_the_content() {
    let config = Config::new(100, false);
    assert_eq!(classify(&file(&["a"], 3), &config, b"abc"), TAKEN);
    assert_eq!(classify(&file(&["a"], 3), &config, b"a\0c"), left_out(Reason::Binary));
    assert_eq!(classify(&file(&["a"], 300), &config, b"a\0c"), left_out(Reason::TooLarge));
    assert_eq!(classify(&file(&["a"], 0), &config, b""), TAKEN);
    assert!(is_excluded_file(&file(&["a"], 3), &config, b"a\0c"));
    assert!(!is_excluded_file(&file(&["a"], 3), &config, b"abc"));
    assert!(is_excluded_file(&file(&[".git", "a"], 3), &config, b"abc"));
    assert!(!is_excluded_file(&entry(&["d"], true, 0), &config, b""));
}

#[test]
fn empty_content_is_never_binary() {
    assert!(!is_binary_file(b""));
    assert!(!detect(b"", Detector::ContentType));
    assert!(!detect(b"", Detector::NulBytes));
    assert!(!judge(b"", Some("image/png")));
    assert!(!judge(b"", None));
}

#[test]
fn nul_byte_without_a_known_type_is_binary() {
    assert!(is_binary_file(b"abc\0def"));
    assert!(is_binary_file(&[0]));
    assert!(!is_binary_file(b"plain text\n"));
    assert!(contains_nul(b"\0"));
    assert!(contains_nul(b"ab\0"));
    assert!(!contains_nul(b"ab"));
    assert!(!contains_nul(b""));
}

#[test]
fn recognised_type_decides_before_nul_bytes() {
    let png = [0x89, b'P', b'N', b'G', 0x0D, 0x0A, 0x1A, 0x0A, 1, 2, 3, 4];
    assert!(is_binary_file(&png));
    assert!(is_binary_file(b"%PDF-1.4 no nul byte here"));
    assert!(!is_binary_file(b"#!/bin/sh\necho\n"));
    assert!(!is_binary_file(b"#!/bin/sh\n\0"));
    assert!(!is_binary_file(b"<html ><body>\0</body></html>"));
    assert!(judge(b"x", Some("application/pdf")));
    assert!(judge(b"x", Some("text")));
    assert!(!judge(b"x", Some("text/")));
    assert!(!judge(b"\0", Some("text/html")));
    assert!(judge(b"\0", None));
    assert!(!judge(b"x", None));
}

#[test]
fn only_the_beginning_is_looked_at() {
    let mut late_nul = vec![b'a'; 1024];
    late_nul.push(0);
    assert!(!is_binary_file(&late_nul));
    assert!(detect(&late_nul, Detector::NulBytes));
    late_nul[1023] = 0;
    assert!(is_binary_file(&late_nul));

    let mut later_nul = vec![b'a'; 8000];
    later_nul.push(0);
    assert!(!detect(&later_nul, Detector::NulBytes));
    later_nul[7999] = 0;
    assert!(detect(&later_nul, Detector::NulBytes));
    assert_eq!(bytes_wanted(Detector::ContentType), 1024);
    assert_eq!(bytes_wanted(Detector::NulBytes), 8000);
}

#[test]
fn nul_scan_ignores_content_types() {
    assert!(!detect(b"%PDF-1.4", Detector::NulBytes));
    assert!(detect(b"#!/bin/sh\n\0", Detector::NulBytes));
}

#[test]
fn detector_takes_buffers_of_any_length_and_content() {
    let mut seed: u32 = 12345;
    for len in 0..1100usize {
        for fill in [0u8, 1, b'a', 0x7F, 0x80, 0xFF] {
            let buffer = vec![fill; len];
            let binary = is_binary_file(&buffer);
            if len == 0 {
                assert!(!binary);
            }
            if fill == 0 && len > 0 {
                assert!(binary, "length {}", len);
            }
        }
        let mut scattered = Vec::with_capacity(len);
        for _ in 0..len {
            seed = seed.wrapping_mul(1664525).wrapping_add(1013904223);
            scattered.push((seed >> 24) as u8);
        }
        assert_eq!(is_binary_file(&scattered), is_binary_file(&scattered[..len.min(1024)]));
        assert_eq!(detect(&scattered, Detector::NulBytes), scattered.contains(&0));
    }
}

#[test]
fn detector_takes_the_beginnings_of_known_formats() {
    let heads: [&[u8]; 12] = [
        b"\x7FELF",
        b"MZ",
        b"PK\x03\x04",
        b"\x1F\x8B\x08",
        b"GIF89a",
        b"\xFF\xD8\xFF",
        b"RIFF\0\0\0\0WEBP",
        b"\xD0\xCF\x11\xE0\xA1\xB1\x1A\xE1",
        b"\0asm",
        b"<?xml",
        b"#!",
        b"<!DOCTYPE HTML",
    ];
    for head in heads {
        for extra in 0..40usize {
            for fill in [0u8, b' ', b'>', 0xFF] {
                let mut buffer = head.to_vec();
                buffer.extend(std::iter::repeat(fill).take(extra));
                for cut in 0..=buffer.len() {
                    let binary = is_binary_file(&buffer[..cut]);
                    assert_eq!(binary, is_binary_file(&buffer[..cut]));
                }
            }
        }
    }
    assert!(is_binary_file(b"\x1F\x8B\x08 packed"));
    assert!(!is_binary_file(b"<?xml version=\"1.0\"?>\0"));
}
