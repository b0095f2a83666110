//! Checking GitHub projects for versions newer than the one in use: the
//! recipe records, the GraphQL query asked for them, and the choice of the
//! release or tag to compare with.

use vstd::prelude::*;
use crate::compiled::{regex_is_match, regex_matches, regex_replace_all, regex_replaced, regex_compiles, Pattern};
use crate::pattern::PatternError;
use crate::record::{str_eq, RecordError};
use crate::text::{split_on, split_seq};

verus! {

/// Whether a project is checked by its releases or by its tags.
#[derive(PartialEq, Eq, Structural, Clone, Copy, Debug)]
pub enum CheckMethod {
    Release,
    Tag,
}

/// The fields of a [`GithubOss`] as the recipe names them.
#[derive(PartialEq, Eq, Structural, Clone, Copy, Debug)]
pub enum GithubOssField {
    Repo,
    Version,
    VersionRule,
    Prerelease,
    CheckMethod,
}

/// The recipe's name of a field.
pub open spec fn oss_field_name(field: GithubOssField) -> Seq<char> {
    match field {
        GithubOssField::Repo => "repo"@,
        GithubOssField::Version => "version"@,
        GithubOssField::VersionRule => "version_rule"@,
        GithubOssField::Prerelease => "prerelease"@,
        GithubOssField::CheckMethod => "check_method"@,
    }
}

impl GithubOssField {
    /// The recipe's name of this field.
    pub fn to_str(&self) -> (res: &'static str)
        ensures
            res@ == oss_field_name(*self),
            *self == GithubOssField::Repo ==> res@ == "repo"@,
            *self == GithubOssField::Version ==> res@ == "version"@,
            *self == GithubOssField::VersionRule ==> res@ == "version_rule"@,
            *self == GithubOssField::Prerelease ==> res@ == "prerelease"@,
            *self == GithubOssField::CheckMethod ==> res@ == "check_method"@,
    {
        match self {
            GithubOssField::Repo => "repo",
            GithubOssField::Version => "version",
            GithubOssField::VersionRule => "version_rule",
            GithubOssField::Prerelease => "prerelease",
            GithubOssField::CheckMethod => "check_method",
        }
    }

    /// The field that the recipe names `name`, if there is one.
    pub fn from_name(name: &str) -> (res: Option<GithubOssField>)
        ensures
            res matches Some(f) ==> oss_field_name(f) == name@,
            res is None ==> forall|f: GithubOssField| oss_field_name(f) != name@,
            name@ == "repo"@ ==> res == Some(GithubOssField::Repo),
            name@ == "version"@ ==> res == Some(GithubOssField::Version),
            name@ == "version_rule"@ ==> res == Some(GithubOssField::VersionRule),
            name@ == "prerelease"@ ==> res == Some(GithubOssField::Prerelease),
            name@ == "check_method"@ ==> res == Some(GithubOssField::CheckMethod),
            res is None <==> (name@ != "repo"@ && name@ != "version"@ && name@ != "version_rule"@
                && name@ != "prerelease"@ && name@ != "check_method"@),
    {
        proof {
            reveal_strlit("repo");
            reveal_strlit("version");
            reveal_strlit("version_rule");
            reveal_strlit("prerelease");
            reveal_strlit("check_method");
            assert forall|f: GithubOssField, g: GithubOssField|
                #[trigger] oss_field_name(f) == #[trigger] oss_field_name(g) implies f == g by {
                lemma_oss_field_names_distinct(f, g);
            }
            assert(oss_field_name(GithubOssField::Repo) == "repo"@);
            assert(oss_field_name(GithubOssField::Version) == "version"@);
            assert(oss_field_name(GithubOssField::VersionRule) == "version_rule"@);
            assert(oss_field_name(GithubOssField::Prerelease) == "prerelease"@);
            assert(oss_field_name(GithubOssField::CheckMethod) == "check_method"@);
        }
        if str_eq(name, GithubOssField::Repo.to_str()) {
            Some(GithubOssField::Repo)
        } else if str_eq(name, GithubOssField::Version.to_str()) {
            Some(GithubOssField::Version)
        } else if str_eq(name, GithubOssField::VersionRule.to_str()) {
            Some(GithubOssField::VersionRule)
        } else if str_eq(name, GithubOssField::Prerelease.to_str()) {
            Some(GithubOssField::Prerelease)
        } else if str_eq(name, GithubOssField::CheckMethod.to_str()) {
            Some(GithubOssField::CheckMethod)
        } else {
            None
        }
    }
}

/// The recipe names the fields `repo`, `version`, `version_rule`,
/// `prerelease` and `check_method`, each by its own name, and reading a name
/// back gives its field.
pub proof fn lemma_oss_field_names(name: Seq<char>)
    ensures
        oss_field_name(GithubOssField::Repo) == "repo"@,
        oss_field_name(GithubOssField::Version) == "version"@,
        oss_field_name(GithubOssField::VersionRule) == "version_rule"@,
        oss_field_name(GithubOssField::Prerelease) == "prerelease"@,
        oss_field_name(GithubOssField::CheckMethod) == "check_method"@,
        forall|f: GithubOssField, g: GithubOssField|
            #[trigger] oss_field_name(f) == #[trigger] oss_field_name(g) ==> f == g,
{
    assert forall|f: GithubOssField, g: GithubOssField|
        #[trigger] oss_field_name(f) == #[trigger] oss_field_name(g) implies f == g by {
        lemma_oss_field_names_distinct(f, g);
    }
}

/// No two fields share a name, so reading a name back gives the field.
pub proof fn lemma_oss_field_names_distinct(f: GithubOssField, g: GithubOssField)
    ensures
        oss_field_name(f) == oss_field_name(g) ==> f == g,
{
    reveal_strlit("repo");
    reveal_strlit("version");
    reveal_strlit("version_rule");
    reveal_strlit("prerelease");
    reveal_strlit("check_method");
    if oss_field_name(f) == oss_field_name(g) && f != g {
        let a = oss_field_name(f);
        let b = oss_field_name(g);
        assert(a.len() == b.len());
        assert(a[0] == b[0]);
        assert(a[1] == b[1]);
    }
}

/// A project to check: `repo` is `owner/name`; `version` is the version in
/// use; `version_rule`, where given, is a pattern that the names of
/// candidate versions must match; `prerelease` admits pre-releases.
#[derive(Debug)]
pub struct GithubOss {
    pub repo: String,
    pub owner: String,
    pub name: String,
    pub version: String,
    pub version_rule: Option<String>,
    pub prerelease: bool,
    pub check_method: CheckMethod,
}

/// The view of an optional string.
pub open spec fn opt_view(s: Option<String>) -> Option<Seq<char>> {
    match s {
        Some(v) => Some(v@),
        None => None,
    }
}

/// Whether `repo` has the form `owner/name`: at least one `/`.
pub open spec fn has_owner_and_name(repo: Seq<char>) -> bool {
    split_seq(repo, '/').len() >= 2
}

/// Whether `repo` holds a `/`, so that it names an owner and a project.
pub fn repo_has_owner(repo: &str) -> (res: bool)
    ensures
        res == has_owner_and_name(repo@),
{
    split_on(repo, '/').len() >= 2
}

/// `o` is the project that `GithubOss::new` makes of these values: the owner
/// is the part of `repo` before its first `/`, the name the part after it.
pub open spec fn oss_holds(
    o: GithubOss,
    repo: Seq<char>,
    version: Seq<char>,
    version_rule: Option<Seq<char>>,
    prerelease: bool,
    check_method: CheckMethod,
) -> bool {
    &&& o.repo@ == repo
    &&& o.owner@ == split_seq(repo, '/')[0]
    &&& o.name@ == split_seq(repo, '/')[1]
    &&& o.version@ == version
    &&& opt_view(o.version_rule) == version_rule
    &&& o.prerelease == prerelease
    &&& o.check_method == check_method
}

impl GithubOss {
    /// The project for these values; `repo` must hold a `/`.
    pub fn new(
        repo: &str,
        version: &str,
        version_rule: Option<String>,
        prerelease: bool,
        check_method: CheckMethod,
    ) -> (res: GithubOss)
        requires
            has_owner_and_name(repo@),
        ensures
            oss_holds(res, repo@, version@, opt_view(version_rule), prerelease, check_method),
    {
        let split = split_on(repo, '/');
        assert(split.deep_view()[0] == split@[0]@);
        assert(split.deep_view()[1] == split@[1]@);
        GithubOss {
            repo: repo.to_owned(),
            owner: split[0].clone(),
            name: split[1].clone(),
            version: version.to_owned(),
            version_rule,
            prerelease,
            check_method,
        }
    }

    /// The project from the elements of a sequence, in field order; the first
    /// missing element ends it with the number of elements read.
    pub fn from_elements(
        repo: Option<String>,
        version: Option<String>,
        version_rule: Option<Option<String>>,
        prerelease: Option<bool>,
        check_method: Option<CheckMethod>,
    ) -> (res: Result<GithubOss, RecordError<GithubOssField>>)
        requires
            repo is Some && version is Some && version_rule is Some && prerelease is Some
                && check_method is Some ==> has_owner_and_name(repo->0@),
        ensures
            res == Err::<GithubOss, RecordError<GithubOssField>>(RecordError::InvalidLength(0))
                <== repo is None,
            res == Err::<GithubOss, RecordError<GithubOssField>>(RecordError::InvalidLength(1))
                <== repo is Some && version is None,
            res == Err::<GithubOss, RecordError<GithubOssField>>(RecordError::InvalidLength(2))
                <== repo is Some && version is Some && version_rule is None,
            res == Err::<GithubOss, RecordError<GithubOssField>>(RecordError::InvalidLength(3))
                <== repo is Some && version is Some && version_rule is Some && prerelease is None,
            res == Err::<GithubOss, RecordError<GithubOssField>>(RecordError::InvalidLength(4))
                <== repo is Some && version is Some && version_rule is Some && prerelease is Some
                && check_method is None,
            res is Ok <==> (repo is Some && version is Some && version_rule is Some && prerelease
                is Some && check_method is Some),
            res matches Ok(o) ==> oss_holds(
                o,
                repo->0@,
                version->0@,
                opt_view(version_rule->0),
                prerelease->0,
                check_method->0,
            ),
    {
        match (repo, version, version_rule, prerelease, check_method) {
            (None, _, _, _, _) => Err(RecordError::InvalidLength(0)),
            (Some(_), None, _, _, _) => Err(RecordError::InvalidLength(1)),
            (Some(_), Some(_), None, _, _) => Err(RecordError::InvalidLength(2)),
            (Some(_), Some(_), Some(_), None, _) => Err(RecordError::InvalidLength(3)),
            (Some(_), Some(_), Some(_), Some(_), None) => Err(RecordError::InvalidLength(4)),
            (Some(r), Some(v), Some(rule), Some(p), Some(m)) => Ok(
                GithubOss::new(r.as_str(), v.as_str(), rule, p, m),
            ),
        }
    }
}

/// The fields of a [`GithubOss`] read so far from a recipe entry.
pub struct GithubOssBuilder {
    pub repo: Option<String>,
    pub version: Option<String>,
    pub version_rule: Option<String>,
    pub prerelease: Option<bool>,
    pub check_method: Option<CheckMethod>,
}

impl GithubOssBuilder {
    /// No field read yet.
    pub fn new() -> (res: GithubOssBuilder)
        ensures
            res.repo is None && res.version is None && res.version_rule is None
                && res.prerelease is None && res.check_method is None,
    {
        GithubOssBuilder {
            repo: None,
            version: None,
            version_rule: None,
            prerelease: None,
            check_method: None,
        }
    }

    /// Whether `field` was read already.
    pub open spec fn has(&self, field: GithubOssField) -> bool {
        match field {
            GithubOssField::Repo => self.repo is Some,
            GithubOssField::Version => self.version is Some,
            GithubOssField::VersionRule => self.version_rule is Some,
            GithubOssField::Prerelease => self.prerelease is Some,
            GithubOssField::CheckMethod => self.check_method is Some,
        }
    }

    /// Refuses a field that was read already.
    pub fn check_field(&self, field: GithubOssField) -> (res: Result<(), RecordError<GithubOssField>>)
        ensures
            self.has(field) ==> res == Err::<(), RecordError<GithubOssField>>(
                RecordError::DuplicateField(field),
            ),
            !self.has(field) ==> res is Ok,
    {
        let present = match field {
            GithubOssField::Repo => self.repo.is_some(),
            GithubOssField::Version => self.version.is_some(),
            GithubOssField::VersionRule => self.version_rule.is_some(),
            GithubOssField::Prerelease => self.prerelease.is_some(),
            GithubOssField::CheckMethod => self.check_method.is_some(),
        };
        if present {
            Err(RecordError::DuplicateField(field))
        } else {
            Ok(())
        }
    }

    /// The project, or the first required field that never came (in the
    /// order `repo`, `version`, `prerelease`, `check_method`); `version_rule`
    /// may be left out.
    pub fn finish(self) -> (res: Result<GithubOss, RecordError<GithubOssField>>)
        requires
            self.repo is Some && self.version is Some && self.prerelease is Some
                && self.check_method is Some ==> has_owner_and_name(self.repo->0@),
        ensures
            res == Err::<GithubOss, RecordError<GithubOssField>>(
                RecordError::MissingField(GithubOssField::Repo),
            ) <== self.repo is None,
            res == Err::<GithubOss, RecordError<GithubOssField>>(
                RecordError::MissingField(GithubOssField::Version),
            ) <== self.repo is Some && self.version is None,
            res == Err::<GithubOss, RecordError<GithubOssField>>(
                RecordError::MissingField(GithubOssField::Prerelease),
            ) <== self.repo is Some && self.version is Some && self.prerelease is None,
            res == Err::<GithubOss, RecordError<GithubOssField>>(
                RecordError::MissingField(GithubOssField::CheckMethod),
            ) <== self.repo is Some && self.version is Some && self.prerelease is Some
                && self.check_method is None,
            res is Ok <==> (self.repo is Some && self.version is Some && self.prerelease is Some
                && self.check_method is Some),
            res matches Ok(o) ==> oss_holds(
                o,
                self.repo->0@,
                self.version->0@,
                opt_view(self.version_rule),
                self.prerelease->0,
                self.check_method->0,
            ),
    {
        match (self.repo, self.version, self.prerelease, self.check_method) {
            (None, _, _, _) => Err(RecordError::MissingField(GithubOssField::Repo)),
            (Some(_), None, _, _) => Err(RecordError::MissingField(GithubOssField::Version)),
            (Some(_), Some(_), None, _) => Err(RecordError::MissingField(GithubOssField::Prerelease)),
            (Some(_), Some(_), Some(_), None) => Err(
                RecordError::MissingField(GithubOssField::CheckMethod),
            ),
            (Some(r), Some(v), Some(p), Some(m)) => Ok(
                GithubOss::new(r.as_str(), v.as_str(), self.version_rule, p, m),
            ),
        }
    }
}

/// The GitHub part of the tool's configuration.
pub struct GitHubConfig {
    pub oauth_token: String,
}

impl Default for GitHubConfig {
    fn default() -> (res: GitHubConfig)
        ensures
            res.oauth_token@ == Seq::<char>::empty(),
    {
        GitHubConfig { oauth_token: String::new() }
    }
}

/// The tool's configuration: the recipe to use where none is named, and
/// the GitHub token.
pub struct Config {
    pub default_recipe: Option<String>,
    pub github: GitHubConfig,
}

impl Default for Config {
    fn default() -> (res: Config)
        ensures
            res.default_recipe is None,
            res.github.oauth_token@ == Seq::<char>::empty(),
    {
        Config { default_recipe: None, github: GitHubConfig::default() }
    }
}

impl Config {
    /// The configuration written where there is none yet: no default recipe
    /// and an empty token.
    pub fn new() -> (res: Config)
        ensures
            res.default_recipe is None,
            res.github.oauth_token@ == Seq::<char>::empty(),
    {
        Config::default()
    }
}

/// The token to use: the one from the environment, else the configured
/// one unless it is empty.
pub fn choose_github_token(env_token: Option<String>, config: &Config) -> (res: Option<String>)
    ensures
        env_token is Some ==> res == env_token,
        env_token is None && config.github.oauth_token@.len() == 0 ==> res is None,
        env_token is None && config.github.oauth_token@.len() > 0 ==> (res matches Some(t)
            && t@ == config.github.oauth_token@),
{
    match env_token {
        Some(t) => Some(t),
        None => if config.github.oauth_token.as_str().is_empty() {
            None
        } else {
            Some(config.github.oauth_token.clone())
        },
    }
}

/// The recipe to read: the one named on the command line, else the
/// configured default.
pub fn choose_recipe(from_command_line: Option<String>, config: &Config) -> (res: Option<String>)
    ensures
        from_command_line is Some ==> res == from_command_line,
        from_command_line is None ==> opt_view(res) == opt_view(config.default_recipe),
{
    match from_command_line {
        Some(r) => Some(r),
        None => match &config.default_recipe {
            Some(r) => Some(r.clone()),
            None => None,
        },
    }
}

/// The HTTPS proxy: `HTTPS_PROXY` where set, else `https_proxy`.
pub fn choose_proxy(upper: Option<String>, lower: Option<String>) -> (res: Option<String>)
    ensures
        upper is Some ==> res == upper,
        upper is None ==> res == lower,
{
    match upper {
        Some(p) => Some(p),
        None => lower,
    }
}

/// How much the tool logs.
#[derive(PartialEq, Eq, Structural, Clone, Copy, Debug)]
pub enum LogLevel {
    /// As the environment says.
    FromEnvironment,
    Info,
    Debug,
    Trace,
}

/// The log level for the number of `-v` flags given.
pub fn log_level_for(verbose: u8) -> (res: LogLevel)
    ensures
        verbose == 0 ==> res == LogLevel::FromEnvironment,
        verbose == 1 ==> res == LogLevel::Info,
        verbose == 2 ==> res == LogLevel::Debug,
        verbose >= 3 ==> res == LogLevel::Trace,
{
    match verbose {
        0 => LogLevel::FromEnvironment,
        1 => LogLevel::Info,
        2 => LogLevel::Debug,
        _ => LogLevel::Trace,
    }
}

/// The name of a release's tag, as the query returns it.
pub struct ResultTagName {
    pub name: String,
}

/// A release as the query returns it.
pub struct ResultRelease {
    pub tag: ResultTagName,
    pub is_draft: bool,
    pub is_prerelease: bool,
    pub url: String,
}

/// The repository of a tag, as the query returns it.
pub struct ResultRepository {
    pub url: String,
}

/// A tag as the query returns it.
pub struct ResultTag {
    pub name: String,
    pub repository: ResultRepository,
}

/// `res` is the first index below `len` that satisfies `pred`, or `None`
/// where none does.
pub open spec fn is_first_where(len: int, pred: spec_fn(int) -> bool, res: Option<usize>) -> bool {
    match res {
        Some(i) => i < len && pred(i as int) && forall|j: int| 0 <= j < i ==> !#[trigger] pred(j),
        None => forall|j: int| 0 <= j < len ==> !#[trigger] pred(j),
    }
}

/// A release is a candidate unless it is a draft, or a pre-release where
/// pre-releases are not wanted.
pub open spec fn release_allowed(r: ResultRelease, prerelease_ok: bool) -> bool {
    !r.is_draft && (!r.is_prerelease || prerelease_ok)
}

/// The first release that is a candidate and whose tag matched the version
/// rule (`matched` says, for each release, whether it did).
pub fn first_release(releases: &Vec<ResultRelease>, prerelease_ok: bool, matched: &Vec<bool>) -> (res:
    Option<usize>)
    requires
        matched@.len() == releases@.len(),
    ensures
        is_first_where(
            releases@.len() as int,
            |i: int| release_allowed(releases@[i], prerelease_ok) && matched@[i],
            res,
        ),
{
    let n = releases.len();
    for i in 0..n
        invariant
            n == releases@.len(),
            matched@.len() == n,
            forall|j: int|
                0 <= j < i ==> !(release_allowed(releases@[j], prerelease_ok) && matched@[j]),
    {
        let r = &releases[i];
        if !r.is_draft && (!r.is_prerelease || prerelease_ok) && matched[i] {
            return Some(i);
        }
    }
    None
}

/// Whether a version name passes the rule: any name where there is no
/// rule, else a name that the rule's pattern matches.
pub open spec fn rule_accepts(rule: Option<&Pattern>, name: Seq<char>) -> bool {
    match rule {
        Some(p) => regex_matches(p.source_spec(), name),
        None => true,
    }
}

/// Whether `name` passes the version rule.
fn rule_matches(rule: Option<&Pattern>, name: &str) -> (res: bool)
    ensures
        res == rule_accepts(rule, name@),
{
    match rule {
        Some(p) => regex_is_match(p, name),
        None => true,
    }
}

/// The release to compare with: the first one that is a candidate for
/// `oss` and whose tag passes the version rule.
pub fn select_release(releases: &Vec<ResultRelease>, oss: &GithubOss, rule: Option<&Pattern>) -> (res:
    Option<usize>)
    ensures
        is_first_where(
            releases@.len() as int,
            |i: int|
                release_allowed(releases@[i], oss.prerelease) && rule_accepts(
                    rule,
                    releases@[i].tag.name@,
                ),
            res,
        ),
{
    let mut matched: Vec<bool> = Vec::new();
    let n = releases.len();
    for i in 0..n
        invariant
            n == releases@.len(),
            matched@.len() == i,
            forall|j: int| 0 <= j < i ==> matched@[j] == rule_accepts(rule, releases@[j].tag.name@),
    {
        let m = rule_matches(rule, releases[i].tag.name.as_str());
        matched.push(m);
    }
    let res = first_release(releases, oss.prerelease, &matched);
    proof {
        let p1 = |i: int| release_allowed(releases@[i], oss.prerelease) && matched@[i];
        let p2 = |i: int|
            release_allowed(releases@[i], oss.prerelease) && rule_accepts(
                rule,
                releases@[i].tag.name@,
            );
        if let Some(i) = res {
            assert(p1(i as int));
            assert forall|j: int| 0 <= j < i implies !#[trigger] p2(j) by {
                assert(!p1(j));
            }
        } else {
            assert forall|j: int| 0 <= j < n implies !#[trigger] p2(j) by {
                assert(!p1(j));
            }
        }
    }
    res
}

/// The first tag whose name matched the version rule (`matched` says, for
/// each tag, whether it did).
pub fn first_tag(tags: &Vec<ResultTag>, matched: &Vec<bool>) -> (res: Option<usize>)
    requires
        matched@.len() == tags@.len(),
    ensures
        is_first_where(tags@.len() as int, |i: int| matched@[i], res),
{
    let n = tags.len();
    for i in 0..n
        invariant
            n == tags@.len(),
            matched@.len() == n,
            forall|j: int| 0 <= j < i ==> !matched@[j],
    {
        if matched[i] {
            return Some(i);
        }
    }
    None
}

/// The tag to compare with: the first one whose name passes the version
/// rule.
pub fn select_tag(tags: &Vec<ResultTag>, rule: Option<&Pattern>) -> (res: Option<usize>)
    ensures
        is_first_where(tags@.len() as int, |i: int| rule_accepts(rule, tags@[i].name@), res),
{
    let mut matched: Vec<bool> = Vec::new();
    let n = tags.len();
    for i in 0..n
        invariant
            n == tags@.len(),
            matched@.len() == i,
            forall|j: int| 0 <= j < i ==> matched@[j] == rule_accepts(rule, tags@[j].name@),
    {
        let m = rule_matches(rule, tags[i].name.as_str());
        matched.push(m);
    }
    let res = first_tag(tags, &matched);
    proof {
        let p1 = |i: int| matched@[i];
        let p2 = |i: int| rule_accepts(rule, tags@[i].name@);
        if let Some(i) = res {
            assert(p1(i as int));
            assert forall|j: int| 0 <= j < i implies !#[trigger] p2(j) by {
                assert(!p1(j));
            }
        } else {
            assert forall|j: int| 0 <= j < n implies !#[trigger] p2(j) by {
                assert(!p1(j));
            }
        }
    }
    res
}

/// How the version in use compares with the one found.
#[derive(PartialEq, Eq, Structural, Clone, Copy, Debug)]
pub enum VersionStatus {
    /// The version in use is the one found.
    Latest,
    /// A different version was found.
    NewVersion,
    /// No release or tag passed.
    NotFound,
}

/// The outcome for one project and the line that tells it.
pub struct VersionReport {
    pub status: VersionStatus,
    pub message: String,
}

/// The line for a project that is up to date.
pub open spec fn latest_line(repo: Seq<char>, tag: Seq<char>) -> Seq<char> {
    "latest: repo="@ + repo + " tag="@ + tag
}

/// The line for a project with a newer version.
pub open spec fn new_version_line(
    repo: Seq<char>,
    current: Seq<char>,
    latest: Seq<char>,
    url: Seq<char>,
) -> Seq<char> {
    "new version was found: repo="@ + repo + " current="@ + current + " latest="@ + latest
        + " url="@ + url
}

/// The outcome of comparing `oss` with the release found, if any.
pub open spec fn release_report_spec(release: Option<&ResultRelease>, oss: &GithubOss) -> (
    VersionStatus,
    Seq<char>,
) {
    match release {
        Some(r) => if oss.version@ == r.tag.name@ {
            (VersionStatus::Latest, latest_line(oss.repo@, r.tag.name@))
        } else {
            (
                VersionStatus::NewVersion,
                new_version_line(oss.repo@, oss.version@, r.tag.name@, r.url@),
            )
        },
        None => (VersionStatus::NotFound, "release repo="@ + oss.repo@ + " not found"@),
    }
}

/// The outcome of comparing `oss` with the tag found, if any.
pub open spec fn tag_report_spec(tag: Option<&ResultTag>, oss: &GithubOss) -> (
    VersionStatus,
    Seq<char>,
) {
    match tag {
        Some(t) => if oss.version@ == t.name@ {
            (VersionStatus::Latest, latest_line(oss.repo@, t.name@))
        } else {
            (
                VersionStatus::NewVersion,
                new_version_line(oss.repo@, oss.version@, t.name@, t.repository.url@),
            )
        },
        None => (VersionStatus::NotFound, "tag repo="@ + oss.repo@ + " not found"@),
    }
}

/// A project is up to date exactly when the name found equals the version in
/// use; any other name found is a new version, and nothing found is
/// reported as such. The line of a new version names the version in use and
/// the one found.
pub proof fn lemma_report_status(
    release: Option<&ResultRelease>,
    tag: Option<&ResultTag>,
    oss: &GithubOss,
)
    ensures
        (release_report_spec(release, oss).0 == VersionStatus::NotFound) <==> release is None,
        (release_report_spec(release, oss).0 == VersionStatus::Latest) <==> (release matches Some(
            r,
        ) && oss.version@ == r.tag.name@),
        release matches Some(r) ==> (oss.version@ != r.tag.name@ ==> release_report_spec(
            release,
            oss,
        ).1 == "new version was found: repo="@ + oss.repo@ + " current="@ + oss.version@
            + " latest="@ + r.tag.name@ + " url="@ + r.url@),
        (tag_report_spec(tag, oss).0 == VersionStatus::NotFound) <==> tag is None,
        (tag_report_spec(tag, oss).0 == VersionStatus::Latest) <==> (tag matches Some(t)
            && oss.version@ == t.name@),
        tag matches Some(t) ==> (oss.version@ != t.name@ ==> tag_report_spec(tag, oss).1
            == "new version was found: repo="@ + oss.repo@ + " current="@ + oss.version@
            + " latest="@ + t.name@ + " url="@ + t.repository.url@),
{
}

/// Builds `latest: repo=.. tag=..`.
fn make_latest_line(repo: &str, tag: &str) -> (res: String)
    ensures
        res@ == latest_line(repo@, tag@),
{
    let mut m = String::from_str("latest: repo=");
    m.append(repo);
    m.append(" tag=");
    m.append(tag);
    m
}

/// Builds `new version was found: repo=.. current=.. latest=.. url=..`.
fn make_new_version_line(repo: &str, current: &str, latest: &str, url: &str) -> (res: String)
    ensures
        res@ == new_version_line(repo@, current@, latest@, url@),
{
    let mut m = String::from_str("new version was found: repo=");
    m.append(repo);
    m.append(" current=");
    m.append(current);
    m.append(" latest=");
    m.append(latest);
    m.append(" url=");
    m.append(url);
    m
}

/// Compares the version in use with the release found.
pub fn release_report(release: Option<&ResultRelease>, oss: &GithubOss) -> (res: VersionReport)
    ensures
        (res.status, res.message@) == release_report_spec(release, oss),
        release is None ==> res.status == VersionStatus::NotFound,
        release matches Some(r) ==> (res.status == VersionStatus::Latest <==> oss.version@
            == r.tag.name@),
        release matches Some(r) ==> (res.status == VersionStatus::NewVersion <==> oss.version@
            != r.tag.name@),
{
    match release {
        Some(r) => if oss.version == r.tag.name {
            VersionReport {
                status: VersionStatus::Latest,
                message: make_latest_line(oss.repo.as_str(), r.tag.name.as_str()),
            }
        } else {
            VersionReport {
                status: VersionStatus::NewVersion,
                message: make_new_version_line(
                    oss.repo.as_str(),
                    oss.version.as_str(),
                    r.tag.name.as_str(),
                    r.url.as_str(),
                ),
            }
        },
        None => {
            let mut m = String::from_str("release repo=");
            m.append(oss.repo.as_str());
            m.append(" not found");
            VersionReport { status: VersionStatus::NotFound, message: m }
        },
    }
}

/// Compares the version in use with the tag found.
pub fn tag_report(tag: Option<&ResultTag>, oss: &GithubOss) -> (res: VersionReport)
    ensures
        (res.status, res.message@) == tag_report_spec(tag, oss),
        tag is None ==> res.status == VersionStatus::NotFound,
        tag matches Some(t) ==> (res.status == VersionStatus::Latest <==> oss.version@
            == t.name@),
        tag matches Some(t) ==> (res.status == VersionStatus::NewVersion <==> oss.version@
            != t.name@),
{
    match tag {
        Some(t) => if oss.version == t.name {
            VersionReport {
                status: VersionStatus::Latest,
                message: make_latest_line(oss.repo.as_str(), t.name.as_str()),
            }
        } else {
            VersionReport {
                status: VersionStatus::NewVersion,
                message: make_new_version_line(
                    oss.repo.as_str(),
                    oss.version.as_str(),
                    t.name.as_str(),
                    t.repository.url.as_str(),
                ),
            }
        },
        None => {
            let mut m = String::from_str("tag repo=");
            m.append(oss.repo.as_str());
            m.append(" not found");
            VersionReport { status: VersionStatus::NotFound, message: m }
        },
    }
}

/// The pattern of the characters that cannot stand in a GraphQL alias.
pub open spec fn alias_pattern_source() -> Seq<char> {
    "[-./]"@
}

/// The pattern that turns a repository path into a GraphQL alias.
pub fn alias_pattern() -> (res: Result<Pattern, PatternError>)
    ensures
        res is Ok <==> regex_compiles(alias_pattern_source()),
        res matches Ok(p) ==> p.source_spec() == alias_pattern_source(),
{
    Pattern::compile("[-./]")
}

/// `repo` with every match of `alias` replaced by `_`: the alias under which
/// the query asks for the repository.
pub open spec fn repo_alias_spec(alias: &Pattern, repo: Seq<char>) -> Seq<char> {
    regex_replaced(alias.source_spec(), repo, "_"@)
}

/// The alias under which the query asks for `repo`.
pub fn repo_alias(alias: &Pattern, repo: &str) -> (res: String)
    ensures
        res@ == repo_alias_spec(alias, repo@),
{
    regex_replace_all(alias, repo, "_")
}

/// The fragment that a project's check method asks for.
pub open spec fn fragment_name(method: CheckMethod) -> Seq<char> {
    match method {
        CheckMethod::Release => "Rel"@,
        CheckMethod::Tag => "Tag"@,
    }
}

/// The part of the query that asks for one repository.
pub open spec fn repository_query(alias: Seq<char>, oss: GithubOss) -> Seq<char> {
    alias + ": repository(owner: \""@ + oss.owner@ + "\", name: \""@ + oss.name@ + "\") { ..."@
        + fragment_name(oss.check_method) + " }"@
}

/// The part for a repository depends on its owner, its name and its check
/// method alone (not on the version, the rule or the pre-release flag), and
/// ends in the spread of the fragment of its check method: `...Tag }` for
/// tags, `...Rel }` for releases.
pub proof fn lemma_repository_query_by_method(alias: Seq<char>, oss: GithubOss, other: GithubOss)
    ensures
        oss.owner@ == other.owner@ && oss.name@ == other.name@ && oss.check_method
            == other.check_method ==> repository_query(alias, oss) == repository_query(
            alias,
            other,
        ),
        ({
            let q = repository_query(alias, oss);
            &&& q.len() >= 8
            &&& oss.check_method == CheckMethod::Tag ==> q.subrange(q.len() - 8, q.len() as int)
                == "...Tag }"@
            &&& oss.check_method == CheckMethod::Release ==> q.subrange(
                q.len() - 8,
                q.len() as int,
            ) == "...Rel }"@
        }),
{
    reveal_strlit("\") { ...");
    reveal_strlit("Tag");
    reveal_strlit("Rel");
    reveal_strlit(" }");
    reveal_strlit("...Tag }");
    reveal_strlit("...Rel }");
    let q = repository_query(alias, oss);
    let head = alias + ": repository(owner: \""@ + oss.owner@ + "\", name: \""@ + oss.name@;
    let frag = fragment_name(oss.check_method);
    assert(q == head + "\") { ..."@ + frag + " }"@);
    assert(frag.len() == 3);
    assert(q.subrange(q.len() - 8, q.len() as int) =~= seq!['.', '.', '.'] + frag
        + seq![' ', '}']);
    if oss.check_method == CheckMethod::Tag {
        assert(q.subrange(q.len() - 8, q.len() as int) =~= "...Tag }"@);
    } else {
        assert(q.subrange(q.len() - 8, q.len() as int) =~= "...Rel }"@);
    }
}

/// The parts for all repositories, one after another.
pub open spec fn repositories_query(aliases: Seq<Seq<char>>, oss_list: Seq<GithubOss>) -> Seq<char>
    decreases oss_list.len(),
{
    if oss_list.len() == 0 {
        Seq::<char>::empty()
    } else {
        repositories_query(aliases, oss_list.drop_last()) + repository_query(
            aliases[oss_list.len() - 1],
            oss_list.last(),
        )
    }
}

/// The whole query: the repositories, the rate limit, then the two fragments.
pub open spec fn query_document(
    repositories: Seq<char>,
    release_fragment: Seq<char>,
    tag_fragment: Seq<char>,
) -> Seq<char> {
    "query ($dryRun: Boolean, $num: Int!) {\n"@ + repositories
        + "\n  rateLimit(dryRun: $dryRun) {\n    cost\n    remaining\n    nodeCount\n  }\n},\n"@
        + release_fragment + "\n"@ + tag_fragment
}

/// The query for the projects, given the alias of each.
pub fn query_text(
    oss_list: &Vec<GithubOss>,
    aliases: &Vec<String>,
    release_fragment: &str,
    tag_fragment: &str,
) -> (res: String)
    requires
        aliases@.len() == oss_list@.len(),
    ensures
        res@ == query_document(
            repositories_query(aliases.deep_view(), oss_list@),
            release_fragment@,
            tag_fragment@,
        ),
{
    let mut body = String::new();
    let n = oss_list.len();
    for i in 0..n
        invariant
            n == oss_list@.len(),
            aliases@.len() == n,
            body@ == repositories_query(aliases.deep_view(), oss_list@.take(i as int)),
    {
        let oss = &oss_list[i];
        body.append(aliases[i].as_str());
        body.append(": repository(owner: \"");
        body.append(oss.owner.as_str());
        body.append("\", name: \"");
        body.append(oss.name.as_str());
        body.append("\") { ...");
        match oss.check_method {
            CheckMethod::Release => body.append("Rel"),
            CheckMethod::Tag => body.append("Tag"),
        }
        body.append(" }");
        assert(oss_list@.take(i + 1).drop_last() =~= oss_list@.take(i as int));
        assert(aliases.deep_view()[i as int] == aliases@[i as int]@);
    }
    assert(oss_list@.take(n as int) =~= oss_list@);
    let mut res = String::from_str("query ($dryRun: Boolean, $num: Int!) {\n");
    res.append(body.as_str());
    res.append("\n  rateLimit(dryRun: $dryRun) {\n    cost\n    remaining\n    nodeCount\n  }\n},\n");
    res.append(release_fragment);
    res.append("\n");
    res.append(tag_fragment);
    res
}

/// The query for the projects, each asked for under its alias.
pub fn build_query(
    oss_list: &Vec<GithubOss>,
    alias: &Pattern,
    release_fragment: &str,
    tag_fragment: &str,
) -> (res: String)
    ensures
        res@ == query_document(
            repositories_query(
                Seq::new(oss_list@.len(), |i: int| repo_alias_spec(alias, oss_list@[i].repo@)),
                oss_list@,
            ),
            release_fragment@,
            tag_fragment@,
        ),
{
    let mut aliases: Vec<String> = Vec::new();
    let n = oss_list.len();
    for i in 0..n
        invariant
            n == oss_list@.len(),
            aliases@.len() == i,
            forall|j: int| 0 <= j < i ==> #[trigger] aliases@[j]@ == repo_alias_spec(alias, oss_list@[j].repo@),
    {
        aliases.push(repo_alias(alias, oss_list[i].repo.as_str()));
    }
    let ghost wanted = Seq::new(oss_list@.len(), |i: int| repo_alias_spec(alias, oss_list@[i].repo@));
    assert(aliases.deep_view() =~= wanted);
    query_text(oss_list, &aliases, release_fragment, tag_fragment)
}

} // verus!
