use rust_myscript::ghoss::{
    alias_pattern, build_query, choose_github_token, choose_proxy, choose_recipe, first_release,
    first_tag, log_level_for, query_text, release_report, repo_alias, repo_has_owner, select_release,
    select_tag, tag_report, CheckMethod, Config, GitHubConfig, GithubOss, GithubOssBuilder,
    GithubOssField, LogLevel, ResultRelease, ResultRepository, ResultTag, ResultTagName,
    VersionStatus,
};
use rust_myscript::pattern::Pattern;
use rust_myscript::record::RecordError;

fn oss(repo: &str, version: &str, rule: Option<&str>, pre: bool, m: CheckMethod) -> GithubOss {
    GithubOss::new(repo, version, rule.map(|r| r.to_string()), pre, m)
}

fn release(name: &str, draft: bool, pre: bool) -> ResultRelease {
    ResultRelease {
        tag: ResultTagName { name: name.to_string() },
        is_draft: draft,
        is_prerelease: pre,
        url: format!("https://example.org/{}", name),
    }
}

fn tag(name: &str) -> ResultTag {
    ResultTag { name: name.to_string(), repository: ResultRepository { url: "https://example.org/r".to_string() } }
}

#[test]
fn new_splits_owner_and_name() {
    let o = oss("rust-lang/rust", "1.0.0", None, false, CheckMethod::Release);
    assert_eq!(o.owner, "rust-lang");
    assert_eq!(o.name, "rust");
    assert_eq!(o.repo, "rust-lang/rust");
    assert!(repo_has_owner("a/b"));
    assert!(!repo_has_owner("ab"));
}

#[test]
fn oss_field_names_round_trip() {
    let all = [
        GithubOssField::Repo,
        GithubOssField::Version,
        GithubOssField::VersionRule,
        GithubOssField::Prerelease,
        GithubOssField::CheckMethod,
    ];
    for f in all {
        assert_eq!(GithubOssField::from_name(f.to_str()), Some(f));
    }
    assert_eq!(GithubOssField::VersionRule.to_str(), "version_rule");
    assert_eq!(GithubOssField::from_name("Repo"), None);
}

#[test]
fn builder_checks_fields() {
    let mut b = GithubOssBuilder::new();
    assert_eq!(b.check_field(GithubOssField::Repo), Ok(()));
    b.repo = Some("o/n".to_string());
    assert_eq!(b.check_field(GithubOssField::Repo), Err(RecordError::DuplicateField(GithubOssField::Repo)));
    b.version = Some("v1".to_string());
    b.check_method = Some(CheckMethod::Tag);
    assert_eq!(b.finish().err(), Some(RecordError::MissingField(GithubOssField::Prerelease)));
    assert_eq!(GithubOssBuilder::new().finish().err(), Some(RecordError::MissingField(GithubOssField::Repo)));

    let mut c = GithubOssBuilder::new();
    c.repo = Some("o/n".to_string());
    c.version = Some("v1".to_string());
    c.prerelease = Some(true);
    assert_eq!(c.finish().err(), Some(RecordError::MissingField(GithubOssField::CheckMethod)));

    let mut d = GithubOssBuilder::new();
    d.repo = Some("o/n".to_string());
    d.prerelease = Some(true);
    assert_eq!(d.finish().err(), Some(RecordError::MissingField(GithubOssField::Version)));

    let mut e = GithubOssBuilder::new();
    e.repo = Some("o/n".to_string());
    e.version = Some("v1".to_string());
    e.prerelease = Some(false);
    e.check_method = Some(CheckMethod::Release);
    let o = e.finish().ok().unwrap();
    assert_eq!((o.owner.as_str(), o.name.as_str(), o.version_rule.is_none()), ("o", "n", true));
}

#[test]
fn oss_elements_in_order() {
    let ok = GithubOss::from_elements(
        Some("a/b".to_string()),
        Some("1".to_string()),
        Some(Some("^v".to_string())),
        Some(true),
        Some(CheckMethod::Tag),
    )
    .ok()
    .unwrap();
    assert_eq!(ok.version_rule, Some("^v".to_string()));
    assert_eq!(GithubOss::from_elements(None, None, None, None, None).err(), Some(RecordError::InvalidLength(0)));
    assert_eq!(
        GithubOss::from_elements(Some("a/b".to_string()), Some("1".to_string()), Some(None), None, None).err(),
        Some(RecordError::InvalidLength(3))
    );
    assert_eq!(
        GithubOss::from_elements(Some("a/b".to_string()), Some("1".to_string()), None, Some(true), None).err(),
        Some(RecordError::InvalidLength(2))
    );
    assert_eq!(
        GithubOss::from_elements(Some("a/b".to_string()), None, None, None, None).err(),
        Some(RecordError::InvalidLength(1))
    );
    assert_eq!(
        GithubOss::from_elements(Some("a/b".to_string()), Some("1".to_string()), Some(None), Some(true), None).err(),
        Some(RecordError::InvalidLength(4))
    );
}

#[test]
fn config_defaults_and_choices() {
    let c = Config::new();
    assert!(c.default_recipe.is_none());
    assert_eq!(c.github.oauth_token, "");
    assert_eq!(GitHubConfig::default().oauth_token, "");
    assert_eq!(choose_github_token(None, &c), None);
    assert_eq!(choose_github_token(Some("env".to_string()), &c), Some("env".to_string()));
    let with_token = Config { default_recipe: Some("r.toml".to_string()), github: GitHubConfig { oauth_token: "cfg".to_string() } };
    assert_eq!(choose_github_token(None, &with_token), Some("cfg".to_string()));
    assert_eq!(choose_github_token(Some("env".to_string()), &with_token), Some("env".to_string()));
    assert_eq!(choose_recipe(None, &with_token), Some("r.toml".to_string()));
    assert_eq!(choose_recipe(Some("x".to_string()), &with_token), Some("x".to_string()));
    assert_eq!(choose_recipe(None, &c), None);
    assert_eq!(choose_proxy(Some("A".to_string()), Some("b".to_string())), Some("A".to_string()));
    assert_eq!(choose_proxy(None, Some("b".to_string())), Some("b".to_string()));
    assert_eq!(choose_proxy(None, None), None);
}

#[test]
fn log_levels() {
    assert_eq!(log_level_for(0), LogLevel::FromEnvironment);
    assert_eq!(log_level_for(1), LogLevel::Info);
    assert_eq!(log_level_for(2), LogLevel::Debug);
    assert_eq!(log_level_for(3), LogLevel::Trace);
    assert_eq!(log_level_for(200), LogLevel::Trace);
}

#[test]
fn patterns_compile_or_not() {
    assert!(Pattern::compile("^v[0-9]+").is_ok());
    let err = Pattern::compile("(").err().unwrap();
    assert_eq!(err.pattern, "(");
    assert!(!err.message.is_empty());
    assert_eq!(Pattern::compile("a+").ok().unwrap().source(), "a+");
}

#[test]
fn aliases_replace_dash_dot_slash() {
    let alias = alias_pattern().ok().unwrap();
    assert_eq!(repo_alias(&alias, "rust-lang/rust.vim"), "rust_lang_rust_vim");
    assert_eq!(repo_alias(&alias, "plain"), "plain");
}

#[test]
fn releases_pass_filters() {
    let rels = vec![release("v3", true, false), release("v2-rc", false, true), release("v1", false, false)];
    let stable = oss("a/b", "v1", None, false, CheckMethod::Release);
    assert_eq!(select_release(&rels, &stable, None), Some(2));
    let pre = oss("a/b", "v1", None, true, CheckMethod::Release);
    assert_eq!(select_release(&rels, &pre, None), Some(1));
    let rule = Pattern::compile("^v[0-9]+$").ok().unwrap();
    assert_eq!(select_release(&rels, &pre, Some(&rule)), Some(2));
    let none = Pattern::compile("^x").ok().unwrap();
    assert_eq!(select_release(&rels, &pre, Some(&none)), None);
    assert_eq!(first_release(&rels, true, &vec![true, false, true]), Some(2));
    assert_eq!(first_release(&rels, false, &vec![true, true, false]), None);
}

#[test]
fn tags_pass_the_rule() {
    let tags = vec![tag("nightly"), tag("v2.0"), tag("v1.9")];
    assert_eq!(select_tag(&tags, None), Some(0));
    let rule = Pattern::compile("^v").ok().unwrap();
    assert_eq!(select_tag(&tags, Some(&rule)), Some(1));
    assert_eq!(first_tag(&tags, &vec![false, false, false]), None);
    assert_eq!(select_tag(&Vec::new(), None), None);
}

#[test]
fn reports() {
    let o = oss("a/b", "v1", None, false, CheckMethod::Release);
    let same = release("v1", false, false);
    let newer = release("v2", false, false);
    let r = release_report(Some(&same), &o);
    assert_eq!(r.status, VersionStatus::Latest);
    assert_eq!(r.message, "latest: repo=a/b tag=v1");
    let r = release_report(Some(&newer), &o);
    assert_eq!(r.status, VersionStatus::NewVersion);
    assert_eq!(r.message, "new version was found: repo=a/b current=v1 latest=v2 url=https://example.org/v2");
    let r = release_report(None, &o);
    assert_eq!(r.status, VersionStatus::NotFound);
    assert_eq!(r.message, "release repo=a/b not found");
    let t = tag("v3");
    let r = tag_report(Some(&t), &o);
    assert_eq!(r.message, "new version was found: repo=a/b current=v1 latest=v3 url=https://example.org/r");
    assert_eq!(tag_report(None, &o).message, "tag repo=a/b not found");
    assert_eq!(tag_report(Some(&tag("v1")), &o).status, VersionStatus::Latest);
}

#[test]
fn query_for_two_projects() {
    let list = vec![
        oss("rust-lang/rust", "1", None, false, CheckMethod::Release),
        oss("a.b/c", "1", None, false, CheckMethod::Tag),
    ];
    let alias = alias_pattern().ok().unwrap();
    let q = build_query(&list, &alias, "fragment Rel on Repository { x }", "fragment Tag on Repository { y }");
    let expected = "query ($dryRun: Boolean, $num: Int!) {\n\
rust_lang_rust: repository(owner: \"rust-lang\", name: \"rust\") { ...Rel }\
a_b_c: repository(owner: \"a.b\", name: \"c\") { ...Tag }\n  rateLimit(dryRun: $dryRun) {\n    cost\n    remaining\n    nodeCount\n  }\n},\nfragment Rel on Repository { x }\nfragment Tag on Repository { y }";
    assert_eq!(q, expected);
    let direct = query_text(&list, &vec!["A".to_string(), "B".to_string()], "R", "T");
    assert!(direct.starts_with("query ($dryRun: Boolean, $num: Int!) {\nA: repository(owner: \"rust-lang\""));
    assert!(direct.ends_with("},\nR\nT"));
}
