use gitsnap::repository::{
    check_download, clone_url, extract_repo_name, github_address_of, is_git_path, local_name_of,
    normalize_github_url, normalize_repository_url, repo_name_of, web_address_of, ParsedUrl,
};
use std::path::Path;

#[test]
fn short_form_becomes_an_https_address() {
    assert_eq!(
        normalize_github_url("rust-lang/rust"),
        Ok("https://github.com/rust-lang/rust".to_string())
    );
}

#[test]
fn full_addresses_are_kept() {
    assert_eq!(
        normalize_github_url("https://github.com/rust-lang/rust"),
        Ok("https://github.com/rust-lang/rust".to_string())
    );
    assert_eq!(
        normalize_github_url("git@github.com:rust-lang/rust.git"),
        Ok("git@github.com:rust-lang/rust.git".to_string())
    );
}

#[test]
fn slashes_at_the_end_are_dropped() {
    assert_eq!(
        normalize_github_url("https://github.com/rust-lang/rust///"),
        Ok("https://github.com/rust-lang/rust".to_string())
    );
    assert_eq!(
        normalize_github_url("rust-lang/rust/"),
        Ok("https://github.com/rust-lang/rust".to_string())
    );
}

#[test]
fn other_texts_are_refused() {
    let refused = Err("Invalid GitHub repository URL format".to_string());
    assert_eq!(normalize_github_url(""), refused);
    assert_eq!(normalize_github_url("rust"), refused);
    assert_eq!(normalize_github_url("a/b/c"), refused);
    assert_eq!(normalize_github_url("a b/c"), refused);
    assert_eq!(normalize_github_url("http://github.com/a/b"), refused);
    assert_eq!(normalize_github_url("https://gitlab.com/a/b"), refused);
}

#[test]
fn word_characters_of_any_script_make_a_short_form() {
    assert_eq!(
        normalize_github_url("бета/проект_1"),
        Ok("https://github.com/бета/проект_1".to_string())
    );
}

fn invalid_repository() -> Result<String, String> {
    Err("Invalid repository format. Expected HTTPS URL, SSH URL, or 'username/repository' format."
        .to_string())
}

#[test]
fn web_url_loses_git_suffix_and_last_slash() {
    assert_eq!(
        normalize_repository_url("https://github.com/rust-lang/rust.git"),
        Ok("https://github.com/rust-lang/rust".to_string())
    );
    assert_eq!(
        normalize_repository_url("https://github.com/rust-lang/rust/"),
        Ok("https://github.com/rust-lang/rust".to_string())
    );
    assert_eq!(
        normalize_repository_url("http://example.org/a/b.GIT"),
        Ok("http://example.org/a/b".to_string())
    );
    assert_eq!(
        normalize_repository_url("HTTPS://GitHub.com/a/b"),
        Ok("https://github.com/a/b".to_string())
    );
}

#[test]
fn web_url_without_a_path_keeps_its_host() {
    assert_eq!(
        normalize_repository_url("https://github.com"),
        Ok("https://github.com".to_string())
    );
}

#[test]
fn git_suffix_before_a_last_slash_is_cut_by_position() {
    assert_eq!(
        normalize_repository_url("https://github.com/a/b.git/"),
        Ok("https://github.com/a/b.".to_string())
    );
}

#[test]
fn ssh_address_becomes_an_https_address() {
    assert_eq!(
        normalize_repository_url("git@github.com:rust-lang/rust.git"),
        Ok("https://github.com/rust-lang/rust".to_string())
    );
    assert_eq!(
        normalize_repository_url("git@github.com:rust-lang/rust"),
        Ok("https://github.com/rust-lang/rust".to_string())
    );
}

#[test]
fn short_name_becomes_an_https_address() {
    assert_eq!(
        normalize_repository_url("rust-lang/rust"),
        Ok("https://github.com/rust-lang/rust".to_string())
    );
    assert_eq!(
        normalize_repository_url("rust-lang/rust.git"),
        Ok("https://github.com/rust-lang/rust".to_string())
    );
    assert_eq!(normalize_repository_url("a/.git"), Ok("https://github.com/a/.git".to_string()));
}

#[test]
fn other_inputs_are_no_repository() {
    assert_eq!(normalize_repository_url(""), invalid_repository());
    assert_eq!(normalize_repository_url("rust"), invalid_repository());
    assert_eq!(normalize_repository_url("a/b/c"), invalid_repository());
    assert_eq!(normalize_repository_url("/b"), invalid_repository());
    assert_eq!(normalize_repository_url("ftp://example.org/a/b"), invalid_repository());
}

#[test]
fn web_address_is_for_web_schemes_alone() {
    let url = |scheme: &str, text: &str| ParsedUrl {
        scheme: scheme.to_string(),
        text: text.to_string(),
    };
    assert_eq!(web_address_of(&url("https", "https://h/a")), Some("https://h/a".to_string()));
    assert_eq!(web_address_of(&url("http", "http://h/a.git")), Some("http://h/a".to_string()));
    assert_eq!(web_address_of(&url("http", "http://h/")), Some("http://h".to_string()));
    assert_eq!(web_address_of(&url("http", "")), Some("".to_string()));
    assert_eq!(web_address_of(&url("ftp", "ftp://h/a")), None);
    assert_eq!(web_address_of(&url("file", "file:///a.git")), None);
}

#[test]
fn github_address_needs_owner_and_name() {
    let group = |text: &str| Some(text.to_string());
    assert_eq!(
        github_address_of(&Some(vec![group("o/n"), group("o"), group("n")])),
        Some("https://github.com/o/n".to_string())
    );
    assert_eq!(github_address_of(&Some(vec![group("o/n"), group("o"), None])), None);
    assert_eq!(github_address_of(&Some(vec![group("o/n"), None, group("n")])), None);
    assert_eq!(github_address_of(&Some(vec![group("o/n"), group("o")])), None);
    assert_eq!(github_address_of(&None), None);
}

#[test]
fn repository_name_is_read_from_an_https_address() {
    assert_eq!(extract_repo_name("https://github.com/rust-lang/rust"), Ok("rust".to_string()));
    assert_eq!(
        extract_repo_name("see https://github.com/a/b.git/tree/main"),
        Ok("b.git".to_string())
    );
    let missing = Err("Could not extract repository name from URL".to_string());
    assert_eq!(extract_repo_name("https://gitlab.com/a/b"), missing);
    assert_eq!(extract_repo_name("https://github.com/a"), missing);
    assert_eq!(extract_repo_name(""), missing);
}

#[test]
fn repository_name_is_the_first_group() {
    let missing = Err("Could not extract repository name from URL".to_string());
    assert_eq!(
        repo_name_of(&Some(vec![Some("x".to_string()), Some("name".to_string())])),
        Ok("name".to_string())
    );
    assert_eq!(repo_name_of(&Some(vec![Some("x".to_string()), None])), missing);
    assert_eq!(repo_name_of(&Some(vec![Some("x".to_string())])), missing);
    assert_eq!(repo_name_of(&None), missing);
}

#[test]
fn clone_address_ends_with_git() {
    assert_eq!(clone_url("https://github.com/a/b"), "https://github.com/a/b.git");
    assert_eq!(clone_url("https://github.com/a/b.git"), "https://github.com/a/b.git");
    assert_eq!(clone_url("https://github.com/a/b.Git/"), "https://github.com/a/b.Git/");
    assert_eq!(clone_url("https://github.com/a/.git"), "https://github.com/a/.git.git");
    assert_eq!(clone_url(""), ".git");
}

fn by_std(path: &str) -> bool {
    Path::new(path).extension().is_some_and(|ext| ext.eq_ignore_ascii_case("git"))
}

#[test]
fn git_extension_is_read_as_the_standard_library_reads_it() {
    let pieces = ["", "a", ".", "..", "/", ".git", "git", "b.git", "b.GIT", "x.gIt", "é", "a.b"];
    let mut paths: Vec<String> = pieces.iter().map(|p| p.to_string()).collect();
    for _ in 0..3 {
        let mut longer = Vec::new();
        for head in &paths {
            for tail in pieces {
                longer.push(format!("{}{}", head, tail));
            }
        }
        paths = longer;
        for path in &paths {
            let chars: Vec<char> = path.chars().collect();
            assert_eq!(is_git_path(&chars), by_std(path), "path {:?}", path);
        }
    }
}

#[test]
fn local_name_follows_the_last_slash() {
    assert_eq!(local_name_of("https://github.com/a/b.git"), "b");
    assert_eq!(local_name_of("https://github.com/a/b"), "b");
    assert_eq!(local_name_of("https://github.com/a/b.git.git"), "b");
    assert_eq!(local_name_of("https://github.com/a/b/"), "");
    assert_eq!(local_name_of("plain"), "plain");
    assert_eq!(local_name_of(".git"), "");
    assert_eq!(local_name_of(""), "");
    for url in ["a/b.git", "x", "a/b/.git.git", "a.git/b", "git", "a/b.gitx", "é/ü.git"] {
        let expected = url.split('/').last().unwrap_or("repo").trim_end_matches(".git");
        assert_eq!(local_name_of(url), expected, "url {:?}", url);
    }
}

#[test]
fn download_is_judged_by_clone_and_entries() {
    assert_eq!(check_download(true, "", 3), Ok(()));
    assert_eq!(
        check_download(false, "fatal: not found", 3),
        Err("Failed to clone repository: fatal: not found".to_string())
    );
    assert_eq!(
        check_download(false, "", 0),
        Err("Failed to clone repository: ".to_string())
    );
    assert_eq!(check_download(true, "", 0), Err("Repository appears to be empty".to_string()));
}

#[test]
fn addresses_of_any_shape_are_answered() {
    let pieces = [
        "", "/", ":", "@", ".", ".git", "git@github.com:", "https://", "http://", "github.com",
        "a", "é", " ", "\n", "?", "#", "%", "[", "\\", "-", "_",
    ];
    let mut inputs: Vec<String> = pieces.iter().map(|p| p.to_string()).collect();
    let mut longer = Vec::new();
    for head in &inputs {
        for tail in pieces {
            longer.push(format!("{}{}", head, tail));
        }
    }
    inputs.extend(longer);
    inputs.push("git@github.com:a/b/".to_string());
    inputs.push("https://github.com/a/b.git//".to_string());
    for input in &inputs {
        let full = normalize_github_url(input);
        let trimmed = input.trim_end_matches('/');
        if trimmed.starts_with("git@github.com:") || trimmed.starts_with("https://github.com/") {
            assert_eq!(full, Ok(trimmed.to_string()), "input {:?}", input);
        } else if let Ok(address) = &full {
            assert_eq!(address, &format!("https://github.com/{}", trimmed));
        }
        if let Ok(address) = normalize_repository_url(input) {
            assert!(!address.is_empty() || input.is_empty());
        }
        let _ = extract_repo_name(input);
        assert!(clone_url(input).starts_with(input.as_str()));
    }
}
