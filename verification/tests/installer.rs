use win_widgets::installer::{
    check_install_request, check_widget_id, chosen_widget_id, downloaded_pack, first_folder,
    is_widget_dir, pack_widget_address, parse_github_url, repo_info_address, repo_zip_address,
    widget_candidate, widget_dir_name, candidate_from_members, folder_step, FolderStep, InstallWidgetsRequest, WidgetCandidate,
};

fn ok(owner: &str, repo: &str) -> Result<(String, String), String> {
    Ok((owner.to_string(), repo.to_string()))
}

fn err(msg: &str) -> Result<(String, String), String> {
    Err(msg.to_string())
}

#[test]
fn parses_plain_repository_url() {
    assert_eq!(parse_github_url("https://github.com/owner/repo"), ok("owner", "repo"));
}

#[test]
fn parses_url_with_spaces_slashes_and_git_suffix() {
    assert_eq!(parse_github_url("  https://github.com/owner/repo.git/// \n"), ok("owner", "repo"));
    assert_eq!(parse_github_url("\u{3000}https://github.com/a/b\t"), ok("a", "b"));
    assert_eq!(parse_github_url("https://github.com/owner/repo.git.git"), ok("owner", "repo"));
}

#[test]
fn parses_url_with_more_path() {
    assert_eq!(parse_github_url("https://github.com/owner/repo/tree/main"), ok("owner", "repo"));
}

#[test]
fn repository_named_only_git_suffix_is_emptied() {
    assert_eq!(parse_github_url("https://github.com/owner/.git"), ok("owner", ""));
}

#[test]
fn rejects_other_hosts() {
    assert_eq!(parse_github_url("http://github.com/a/b"), err("Invalid GitHub repository URL"));
    assert_eq!(parse_github_url("https://gitlab.com/a/b"), err("Invalid GitHub repository URL"));
    assert_eq!(parse_github_url("https://github.com/"), err("Invalid GitHub repository URL"));
    assert_eq!(parse_github_url(""), err("Invalid GitHub repository URL"));
}

#[test]
fn rejects_missing_owner() {
    assert_eq!(parse_github_url("https://github.com//repo"), err("Missing GitHub owner"));
}

#[test]
fn rejects_missing_repository() {
    assert_eq!(parse_github_url("https://github.com/owner"), err("Missing GitHub repository name"));
    assert_eq!(parse_github_url("https://github.com/owner//x"), err("Missing GitHub repository name"));
}

#[test]
fn github_url_round_trip() {
    for (owner, repo) in [("me", "widgets"), ("Some-One", "pack_2"), ("x", "y.zip")] {
        let url = format!("https://github.com/{}/{}", owner, repo);
        assert_eq!(parse_github_url(&url), ok(owner, repo));
    }
}

#[test]
fn builds_github_addresses() {
    assert_eq!(repo_info_address("me", "pack"), "https://api.github.com/repos/me/pack");
    assert_eq!(
        repo_zip_address("me", "pack", "main"),
        "https://codeload.github.com/me/pack/zip/refs/heads/main"
    );
    assert_eq!(pack_widget_address("me", "pack", "clock"), "me/pack/clock");
}

#[test]
fn widget_dir_needs_both_files() {
    assert!(is_widget_dir(true, true));
    assert!(!is_widget_dir(true, false));
    assert!(!is_widget_dir(false, true));
}

#[test]
fn candidate_reads_widget_json() {
    let json = r#"{"name": "Clock", "description": "Shows time", "author": "Ann"}"#;
    let c = widget_candidate("me", "pack", "clock", "widgets\\clock", json, "/tmp/x/clock").unwrap();
    assert_eq!(
        c,
        WidgetCandidate {
            id: "me/pack/clock".to_string(),
            name: "Clock".to_string(),
            description: "Shows time".to_string(),
            author: Some("Ann".to_string()),
            relative_path: "widgets/clock".to_string(),
        }
    );
}

#[test]
fn candidate_falls_back_when_fields_are_missing() {
    let c = widget_candidate("me", "pack", "clock", "clock", r#"{"name": 5}"#, "d").unwrap();
    assert_eq!(c.name, "clock");
    assert_eq!(c.description, "");
    assert_eq!(c.author, None);
    assert_eq!(c.relative_path, "clock");
}

#[test]
fn candidate_reports_invalid_json() {
    let content = "not json";
    let expected = serde_json::from_str::<serde_json::Value>(content).unwrap_err().to_string();
    let r = widget_candidate("me", "pack", "clock", "clock", content, "/tmp/clock");
    assert_eq!(r, Err(format!("Invalid widget.json in /tmp/clock: {}", expected)));
    assert!(expected.len() > 0);
}

#[test]
fn downloaded_pack_needs_a_widget() {
    assert_eq!(
        downloaded_pack("t".to_string(), "a".to_string(), "p".to_string(), Vec::new()),
        Err("No widgets found in repository".to_string())
    );
    let c = WidgetCandidate {
        id: "a/p/w".to_string(),
        name: "w".to_string(),
        description: String::new(),
        author: None,
        relative_path: "w".to_string(),
    };
    let pack = downloaded_pack("t".to_string(), "a".to_string(), "p".to_string(), vec![c.clone()]).unwrap();
    assert_eq!(pack.token, "t");
    assert_eq!(pack.widgets, vec![c]);
}

#[test]
fn first_folder_or_error() {
    assert_eq!(
        first_folder(vec!["x".to_string(), "y".to_string()], "Repository archive is empty"),
        Ok("x".to_string())
    );
    assert_eq!(
        first_folder(Vec::new(), "Repository archive is empty"),
        Err("Repository archive is empty".to_string())
    );
}

#[test]
fn install_request_checks() {
    let mut request = InstallWidgetsRequest {
        token: "t".to_string(),
        author: "a".to_string(),
        pack: "p".to_string(),
        widgets: Vec::new(),
    };
    assert_eq!(check_install_request(&request, true), Err("No widgets selected".to_string()));
    request.widgets.push("w".to_string());
    assert_eq!(check_install_request(&request, false), Err("Downloaded pack not found".to_string()));
    assert_eq!(check_install_request(&request, true), Ok(()));
}

#[test]
fn chosen_widgets_are_skipped_or_named() {
    assert_eq!(chosen_widget_id("a", "p", false, true, Some("w".to_string())), Ok(None));
    assert_eq!(chosen_widget_id("a", "p", true, false, Some("w".to_string())), Ok(None));
    assert_eq!(
        chosen_widget_id("a", "p", true, true, None),
        Err("Invalid widget directory".to_string())
    );
    assert_eq!(
        chosen_widget_id("a", "p", true, true, Some("w".to_string())),
        Ok(Some("a/p/w".to_string()))
    );
    assert_eq!(widget_dir_name(None), Err("Invalid widget directory".to_string()));
}

#[test]
fn widget_ids_for_removal() {
    let invalid = Err("Invalid widget id".to_string());
    assert_eq!(check_widget_id(""), invalid);
    assert_eq!(check_widget_id("a/../b"), invalid);
    assert_eq!(check_widget_id("a..b"), invalid);
    assert_eq!(check_widget_id("a\\b"), invalid);
    assert_eq!(check_widget_id("me/pack/clock"), Ok(()));
    assert_eq!(check_widget_id("a.b"), Ok(()));
}

#[test]
fn installed_ids_can_be_removed_and_match_manifest_ids() {
    let id = pack_widget_address("me", "pack.v2", "clock");
    assert_eq!(check_widget_id(&id), Ok(()));
    assert_eq!(win_widgets::manifest::widget_id("me\\pack.v2\\clock"), id);
    assert_eq!(win_widgets::manifest::widget_id("me/pack.v2/clock"), id);
}

#[test]
fn candidate_from_member_reads() {
    let c = candidate_from_members(
        "me",
        "pack",
        "clock",
        "a\\clock",
        "d",
        Ok(None),
        Ok(Some("Tells time".to_string())),
        Ok(Some("Bo".to_string())),
    )
    .unwrap();
    assert_eq!(
        c,
        WidgetCandidate {
            id: "me/pack/clock".to_string(),
            name: "clock".to_string(),
            description: "Tells time".to_string(),
            author: Some("Bo".to_string()),
            relative_path: "a/clock".to_string(),
        }
    );
    let r = candidate_from_members(
        "me",
        "pack",
        "clock",
        "clock",
        "/w/clock",
        Ok(Some("Clock".to_string())),
        Err("bad description".to_string()),
        Err("bad author".to_string()),
    );
    assert_eq!(r, Err("Invalid widget.json in /w/clock: bad description".to_string()));
}

#[test]
fn folder_steps() {
    assert_eq!(folder_step(false, false), FolderStep::Skip);
    assert_eq!(folder_step(false, true), FolderStep::Skip);
    assert_eq!(folder_step(true, true), FolderStep::Candidate);
    assert_eq!(folder_step(true, false), FolderStep::Descend);
}
