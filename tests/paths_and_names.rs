use skill_hub::branches::{branch_candidates, prioritize_branch};
use skill_hub::guard::{guard_path, path_within_root, GuardedOperation};
use skill_hub::location::{
    fallback_name_from_url, github_contents_url, github_file_path, parse_github_location,
    parse_skill_urls, GithubLocation, LocationError, UrlError,
};
use skill_hub::order::display_order;
use skill_hub::slug::{slugify, slugify_at, unique_name};
use skill_hub::sync::sync_plan;

fn strings(items: &[&str]) -> Vec<String> {
    items.iter().map(|s| s.to_string()).collect()
}

#[test]
fn slug_of_display_name() {
    assert_eq!(slugify("My Cool Skill!!"), "my-cool-skill");
    assert_eq!(slugify_at("  --Hello__World--  ", 7), "hello-world");
    assert_eq!(slugify_at("ÄÖÜ Tool 2", 7), "tool-2");
}

#[test]
fn slug_of_empty_name_is_placeholder() {
    let s = slugify("");
    assert!(!s.is_empty());
    assert!(s.starts_with("skill-"));
    assert_eq!(slugify_at("", 1700000000), "skill-1700000000");
    assert_eq!(slugify_at("!!!", 0), "skill-0");
}

#[test]
fn second_install_gets_numbered_slug() {
    let taken = strings(&["my-cool-skill"]);
    assert_eq!(unique_name("my-cool-skill", &taken), "my-cool-skill-1");
    let taken = strings(&["a", "a-1", "a-2", "b"]);
    assert_eq!(unique_name("a", &taken), "a-3");
    assert_eq!(unique_name("c", &taken), "c");
    let taken = strings(&["a", "a-2"]);
    assert_eq!(unique_name("a", &taken), "a-1");
}

#[test]
fn sync_adds_missing_and_is_idempotent() {
    let source = strings(&["A", "B"]);
    let target = strings(&["B"]);
    let plan = sync_plan(&source, &target);
    assert_eq!(plan.result.added, 1);
    assert_eq!(plan.result.skipped, 1);
    assert_eq!(plan.to_add, vec![0]);
    let mut after = target.clone();
    for i in &plan.to_add {
        after.push(source[*i].clone());
    }
    let mut sorted = after.clone();
    sorted.sort();
    assert_eq!(sorted, strings(&["A", "B"]));
    let again = sync_plan(&source, &after);
    assert_eq!(again.result.added, 0);
    assert_eq!(again.result.skipped, 2);
    assert!(again.to_add.is_empty());
}

#[test]
fn sync_into_empty_target_adds_all() {
    let plan = sync_plan(&strings(&["x", "y", "z"]), &Vec::new());
    assert_eq!(plan.result.added, 3);
    assert_eq!(plan.result.skipped, 0);
    assert_eq!(plan.to_add, vec![0, 1, 2]);
}

fn location(branch: Option<&str>) -> GithubLocation {
    GithubLocation {
        owner: "o".to_string(),
        repo: "r".to_string(),
        branch: branch.map(|b| b.to_string()),
        path: String::new(),
    }
}

#[test]
fn explicit_branch_is_the_only_candidate() {
    let c = branch_candidates(&location(Some("dev")), Some("main".to_string()));
    assert_eq!(c, strings(&["dev"]));
}

#[test]
fn default_branch_first_then_fallbacks() {
    assert_eq!(
        branch_candidates(&location(None), Some("develop".to_string())),
        strings(&["develop", "main", "master"])
    );
    assert_eq!(
        branch_candidates(&location(None), Some("master".to_string())),
        strings(&["master", "main"])
    );
    assert_eq!(
        branch_candidates(&location(None), Some("main".to_string())),
        strings(&["main", "master"])
    );
    assert_eq!(branch_candidates(&location(None), None), strings(&["main", "master"]));
}

#[test]
fn confirmed_branch_moves_to_front() {
    let b = strings(&["develop", "main", "master"]);
    assert_eq!(
        prioritize_branch(&b, &"master".to_string()),
        strings(&["master", "develop", "main"])
    );
}

#[test]
fn guard_allows_inside_and_refuses_outside() {
    let root = "/home/u/.roo/skills";
    assert!(path_within_root(root, "/home/u/.roo/skills/foo"));
    assert!(path_within_root(root, "/home/u/.roo/skills"));
    assert!(path_within_root(root, "/home/u/.roo/skills/foo/bar/baz.md"));
    assert!(!path_within_root(root, "/home/u/.roo/skillsx"));
    assert!(!path_within_root(root, "/home/u/.roo"));
    assert!(!path_within_root(root, "/etc/passwd"));
    assert!(!path_within_root(root, "home/u/.roo/skills/foo"));
    assert_eq!(
        guard_path(GuardedOperation::Delete, root, "/tmp/elsewhere"),
        Err(GuardedOperation::Delete)
    );
    assert_eq!(
        GuardedOperation::Delete.refusal(),
        "Refusing to delete outside agent root"
    );
    assert_eq!(guard_path(GuardedOperation::Read, root, "/home/u/.roo/skills/a"), Ok(()));
}

#[test]
fn location_with_tree_branch() {
    let loc = parse_github_location("  https://github.com/acme/tools.git/tree/dev/skills/pdf ").unwrap();
    assert_eq!(loc.owner, "acme");
    assert_eq!(loc.repo, "tools");
    assert_eq!(loc.branch.as_deref(), Some("dev"));
    assert_eq!(loc.path, "skills/pdf");
}

#[test]
fn location_with_blob_drops_file_name() {
    let loc = parse_github_location("https://www.github.com/acme/tools/blob/main/skills/pdf/SKILL.md").unwrap();
    assert_eq!(loc.branch.as_deref(), Some("main"));
    assert_eq!(loc.path, "skills/pdf");
    let loc = parse_github_location("https://github.com/acme/tools/blob/main/SKILL.md").unwrap();
    assert_eq!(loc.path, "");
}

#[test]
fn location_without_branch() {
    let loc = parse_github_location("https://github.com/acme/tools/skills/pdf").unwrap();
    assert_eq!(loc.branch, None);
    assert_eq!(loc.path, "skills/pdf");
    let loc = parse_github_location("https://github.com/acme/tools").unwrap();
    assert_eq!(loc.path, "");
}

#[test]
fn location_from_raw_host() {
    let loc = parse_github_location("https://raw.githubusercontent.com/acme/tools/main/a/b/SKILL.md").unwrap();
    assert_eq!(loc.owner, "acme");
    assert_eq!(loc.branch.as_deref(), Some("main"));
    assert_eq!(loc.path, "a/b/SKILL.md");
    assert_eq!(
        parse_github_location("https://raw.githubusercontent.com/acme/tools").unwrap_err(),
        LocationError::RawUrlIncomplete
    );
}

#[test]
fn location_errors() {
    assert_eq!(parse_github_location("not a url").unwrap_err(), LocationError::InvalidUrl);
    assert_eq!(
        parse_github_location("https://example.com/acme/tools").unwrap_err(),
        LocationError::NotGithub
    );
    assert_eq!(
        parse_github_location("https://github.com/acme").unwrap_err(),
        LocationError::MissingOwnerRepo
    );
}

#[test]
fn skill_urls_for_github_tree() {
    let urls = parse_skill_urls("https://github.com/acme/tools/tree/dev/skills/pdf", "SKILL.md").unwrap();
    assert_eq!(
        urls,
        strings(&["https://raw.githubusercontent.com/acme/tools/dev/skills/pdf/SKILL.md"])
    );
}

#[test]
fn skill_urls_guess_main_and_master() {
    let urls = parse_skill_urls("https://github.com/acme/tools", "SKILL.md").unwrap();
    assert_eq!(
        urls,
        strings(&[
            "https://raw.githubusercontent.com/acme/tools/main/SKILL.md",
            "https://raw.githubusercontent.com/acme/tools/master/SKILL.md",
        ])
    );
}

#[test]
fn skill_urls_for_plain_address() {
    assert_eq!(
        parse_skill_urls("https://example.com/skills/pdf/", "SKILL.md").unwrap(),
        strings(&["https://example.com/skills/pdf/SKILL.md"])
    );
    assert_eq!(
        parse_skill_urls("https://example.com/skills/pdf/SKILL.md", "SKILL.md").unwrap(),
        strings(&["https://example.com/skills/pdf/SKILL.md"])
    );
}

#[test]
fn skill_url_errors() {
    assert_eq!(parse_skill_urls("   ", "SKILL.md").unwrap_err(), UrlError::Required);
    assert_eq!(parse_skill_urls("ftp://x/y", "SKILL.md").unwrap_err(), UrlError::BadScheme);
    assert_eq!(parse_skill_urls("http://", "SKILL.md").unwrap_err(), UrlError::InvalidUrl);
    assert_eq!(
        parse_skill_urls("https://github.com/acme", "SKILL.md").unwrap_err(),
        UrlError::MissingOwnerRepo
    );
    assert_eq!(UrlError::Required.message(), "URL is required");
}

#[test]
fn fallback_names() {
    assert_eq!(fallback_name_from_url("https://example.com/skills/pdf/skill.md", "SKILL.md"), "pdf");
    assert_eq!(fallback_name_from_url("https://example.com/skills/pdf", "SKILL.md"), "pdf");
    assert_eq!(fallback_name_from_url("https://example.com/", "SKILL.md"), "skill");
    assert_eq!(fallback_name_from_url("nonsense", "SKILL.md"), "skill");
}

#[test]
fn api_addresses() {
    assert_eq!(
        github_contents_url("o", "r", "", "main"),
        "https://api.github.com/repos/o/r/contents?ref=main"
    );
    assert_eq!(
        github_contents_url("o", "r", "a/b", "dev"),
        "https://api.github.com/repos/o/r/contents/a/b?ref=dev"
    );
    let mut loc = location(None);
    assert_eq!(github_file_path(&loc, "SKILL.md"), "SKILL.md");
    loc.path = "skills/pdf".to_string();
    assert_eq!(github_file_path(&loc, "SKILL.md"), "skills/pdf/SKILL.md");
    loc.path = "skills/pdf/SKILL.md".to_string();
    assert_eq!(github_file_path(&loc, "SKILL.md"), "skills/pdf/SKILL.md");
}

#[test]
fn listing_order_folds_case_and_keeps_ties() {
    let names = strings(&["beta", "Alpha", "alpha", "Gamma", "dir"]);
    let ranks = vec![1, 1, 1, 1, 0];
    assert_eq!(display_order(&ranks, &names), vec![4, 1, 2, 0, 3]);
    assert_eq!(display_order(&vec![0, 0], &strings(&["Zed", "ábc"])), vec![0, 1]);
}

#[test]
fn location_needs_http_scheme() {
    assert_eq!(parse_github_location("ftp://github.com/o/r").unwrap_err(), LocationError::InvalidUrl);
    assert_eq!(parse_github_location("  http://github.com/o/r ").unwrap().repo, "r");
}
