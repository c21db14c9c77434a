//! Credentials for repositories and downloads.

use crate::collections;
use crate::collections::StrMap;
use crate::error::Error;
use crate::fields;
use crate::json;
use crate::json::Json;
use crate::paths;
use crate::text;
use vstd::prelude::*;

verus! {

/// A user name with a password.
#[derive(Debug, Clone)]
pub struct HttpBasic {
    pub username: String,
    pub password: String,
}

/// A GitLab token: a personal access token, or a token with a user name.
#[derive(Debug, Clone)]
pub enum GitlabToken {
    Personal(String),
    Pair { username: String, token: String },
}

/// A GitLab OAuth token, alone or with what refreshes it.
#[derive(Debug, Clone)]
pub enum GitlabOauth {
    Token(String),
    Refresh { token: String, expires_at: Option<i64>, refresh_token: Option<String> },
}

/// The credentials for one host.
#[derive(Debug, Clone)]
pub enum HostAuth {
    Basic { username: String, password: String },
    Bearer(String),
    TokenHeader { name: &'static str, value: String },
}

/// What the credentials for a host consist of.
pub enum HostAuthView {
    Basic(Seq<char>, Seq<char>),
    Bearer(Seq<char>),
    TokenHeader(Seq<char>, Seq<char>),
}

impl View for HostAuth {
    type V = HostAuthView;

    open spec fn view(&self) -> HostAuthView {
        match self {
            HostAuth::Basic { username, password } => HostAuthView::Basic(username@, password@),
            HostAuth::Bearer(t) => HostAuthView::Bearer(t@),
            HostAuth::TokenHeader { name, value } => HostAuthView::TokenHeader(name@, value@),
        }
    }
}

/// The credentials of a project.
#[derive(Debug)]
pub struct AuthStore {
    pub http_basic: StrMap<HttpBasic>,
    pub github_oauth: StrMap<String>,
    pub gitlab_token: StrMap<GitlabToken>,
    pub gitlab_oauth: StrMap<GitlabOauth>,
    pub bearer: StrMap<String>,
    /// Entries that are kept, not read.
    pub rest: StrMap<Json>,
}

impl Default for AuthStore {
    fn default() -> (r: Self)
        ensures
            r.http_basic@.len() == 0,
            r.github_oauth@.len() == 0,
            r.gitlab_token@.len() == 0,
            r.gitlab_oauth@.len() == 0,
            r.bearer@.len() == 0,
            r.rest@.len() == 0,
    {
        AuthStore {
            http_basic: StrMap::new(),
            github_oauth: StrMap::new(),
            gitlab_token: StrMap::new(),
            gitlab_oauth: StrMap::new(),
            bearer: StrMap::new(),
            rest: StrMap::new(),
        }
    }
}

// ---------------------------------------------------------------------------
// Reading

/// What a user name with a password consists of.
pub open spec fn basic_view(b: HttpBasic) -> (Seq<char>, Seq<char>) {
    (b.username@, b.password@)
}

/// What a GitLab token consists of.
pub enum TokenView {
    Personal(Seq<char>),
    Pair(Seq<char>, Seq<char>),
}

/// What a GitLab token consists of.
pub open spec fn token_view(t: GitlabToken) -> TokenView {
    match t {
        GitlabToken::Personal(s) => TokenView::Personal(s@),
        GitlabToken::Pair { username, token } => TokenView::Pair(username@, token@),
    }
}

/// What a GitLab OAuth entry consists of.
pub enum OauthView {
    Token(Seq<char>),
    Refresh(Seq<char>, Option<i64>, Option<Seq<char>>),
}

/// What a GitLab OAuth entry consists of.
pub open spec fn oauth_view(o: GitlabOauth) -> OauthView {
    match o {
        GitlabOauth::Token(s) => OauthView::Token(s@),
        GitlabOauth::Refresh { token, expires_at, refresh_token } => OauthView::Refresh(
            token@,
            expires_at,
            text::opt_text(refresh_token),
        ),
    }
}

/// The user name and password that a value describes.
pub open spec fn basic_json(j: json::JsonView) -> Option<(Seq<char>, Seq<char>)> {
    match fields::record_of(j, seq!["username"@, "password"@]) {
        Some(r) => basic_record(r),
        None => None,
    }
}

/// The user name and password that the members of a record hold.
pub open spec fn basic_record(j: json::JsonView) -> Option<(Seq<char>, Seq<char>)> {
    match (json::text_at(j, "username"@), json::text_at(j, "password"@)) {
        (Some(u), Some(p)) => Some((u, p)),
        _ => None,
    }
}

/// The GitLab token that a value describes: a text, or a user name with a
/// token, which may be called a password.
pub open spec fn token_json(j: json::JsonView) -> Option<TokenView> {
    match j {
        json::JsonView::Str(s) => Some(TokenView::Personal(s)),
        _ => match fields::object_of(j, seq!["username"@, "token"@, "password"@]) {
            Some(o) => token_object(o),
            None => None,
        },
    }
}

/// The user name and token that the members of an object hold. A token and a
/// password together are one too many.
pub open spec fn token_object(j: json::JsonView) -> Option<TokenView> {
    match (
        json::text_at(j, "username"@),
        json::get_of(j, "token"@),
        json::get_of(j, "password"@),
    ) {
        (Some(u), Some(json::JsonView::Str(t)), None) => Some(TokenView::Pair(u, t)),
        (Some(u), None, Some(json::JsonView::Str(t))) => Some(TokenView::Pair(u, t)),
        _ => None,
    }
}

/// The 64-bit number that a number's text stands for.
pub open spec fn i64_of(t: Seq<char>) -> Option<i64> {
    match text::without_prefix(t, "-"@) {
        Some(d) => match text::u64_of(d) {
            Some(n) => if n <= 9223372036854775808 {
                Some((0 - n as int) as i64)
            } else {
                None
            },
            None => None,
        },
        None => match text::u64_of(t) {
            Some(n) => if n <= 9223372036854775807 {
                Some(n as i64)
            } else {
                None
            },
            None => None,
        },
    }
}

fn parse_i64(t: &str) -> (r: Option<i64>)
    ensures
        r == i64_of(t@),
{
    match text::strip_prefix(t, "-") {
        Some(d) => match text::parse_u64(d) {
            Some(n) => if n <= 9223372036854775808 {
                let wide: i128 = 0 - n as i128;
                Some(wide as i64)
            } else {
                None
            },
            None => None,
        },
        None => match text::parse_u64(t) {
            Some(n) => if n <= 9223372036854775807 {
                Some(n as i64)
            } else {
                None
            },
            None => None,
        },
    }
}

/// An optional number.
pub open spec fn opt_number_of(v: Option<json::JsonView>) -> Option<Option<i64>> {
    match v {
        None => Some(None),
        Some(json::JsonView::Null) => Some(None),
        Some(json::JsonView::Number(t)) => match i64_of(t) {
            Some(n) => Some(Some(n)),
            None => None,
        },
        _ => None,
    }
}

/// The GitLab OAuth entry that a value describes.
pub open spec fn oauth_json(j: json::JsonView) -> Option<OauthView> {
    match j {
        json::JsonView::Str(s) => Some(OauthView::Token(s)),
        _ => match fields::object_of(j, seq!["token"@, "expires-at"@, "refresh-token"@]) {
            Some(o) => oauth_object(o),
            None => None,
        },
    }
}

/// The GitLab OAuth entry that the members of an object describe.
pub open spec fn oauth_object(j: json::JsonView) -> Option<OauthView> {
    match (
        json::text_at(j, "token"@),
        opt_number_of(json::get_of(j, "expires-at"@)),
        fields::opt_text_of(json::get_of(j, "refresh-token"@)),
    ) {
        (Some(t), Some(e), Some(r)) => Some(OauthView::Refresh(t, e, r)),
        _ => None,
    }
}

fn read_basic(j: &Json) -> (r: Option<HttpBasic>)
    ensures
        match r {
            Some(b) => basic_json(j@) == Some(basic_view(b)),
            None => basic_json(j@) is None,
        },
{
    let mut names: Vec<&str> = Vec::new();
    names.push("username");
    names.push("password");
    assert(text::views(names@) =~= seq!["username"@, "password"@]);
    if j.is_array() {
        let record = fields::list_record(j, &names)?;
        read_basic_record(&record)
    } else if fields::is_object_of(j, &names) {
        read_basic_record(j)
    } else {
        None
    }
}

fn read_basic_record(j: &Json) -> (r: Option<HttpBasic>)
    ensures
        match r {
            Some(b) => basic_record(j@) == Some(basic_view(b)),
            None => basic_record(j@) is None,
        },
{
    let username = fields::read_text(j, "username")?;
    let password = fields::read_text(j, "password")?;
    Some(HttpBasic { username, password })
}

fn read_token(j: &Json) -> (r: Option<GitlabToken>)
    ensures
        match r {
            Some(t) => token_json(j@) == Some(token_view(t)),
            None => token_json(j@) is None,
        },
{
    if let Json::Str(s) = j {
        return Some(GitlabToken::Personal(s.clone()));
    }
    let mut names: Vec<&str> = Vec::new();
    names.push("username");
    names.push("token");
    names.push("password");
    assert(text::views(names@) =~= seq!["username"@, "token"@, "password"@]);
    if !fields::is_object_of(j, &names) {
        return None;
    }
    let username = fields::read_text(j, "username")?;
    match (j.get("token"), j.get("password")) {
        (Some(Json::Str(t)), None) => Some(GitlabToken::Pair { username, token: t.clone() }),
        (None, Some(Json::Str(t))) => Some(GitlabToken::Pair { username, token: t.clone() }),
        _ => None,
    }
}

fn read_oauth(j: &Json) -> (r: Option<GitlabOauth>)
    ensures
        match r {
            Some(o) => oauth_json(j@) == Some(oauth_view(o)),
            None => oauth_json(j@) is None,
        },
{
    if let Json::Str(s) = j {
        return Some(GitlabOauth::Token(s.clone()));
    }
    let mut names: Vec<&str> = Vec::new();
    names.push("token");
    names.push("expires-at");
    names.push("refresh-token");
    assert(text::views(names@) =~= seq!["token"@, "expires-at"@, "refresh-token"@]);
    if !fields::is_object_of(j, &names) {
        return None;
    }
    let token = fields::read_text(j, "token")?;
    let expires_at: Option<i64> = match j.get("expires-at") {
        None => None,
        Some(Json::Null) => None,
        Some(Json::Number(t)) => Some(parse_i64(t.as_str())?),
        _ => {
            return None;
        },
    };
    let refresh_token = fields::read_opt_text(j, "refresh-token")?;
    Some(GitlabOauth::Refresh { token, expires_at, refresh_token })
}

/// The entries of an object, each read by `f`; nothing if one cannot be read.
pub open spec fn entries_of<T>(
    m: Seq<(Seq<char>, json::JsonView)>,
    f: spec_fn(json::JsonView) -> Option<T>,
) -> Option<Seq<(Seq<char>, T)>>
    decreases m.len(),
{
    if m.len() == 0 {
        Some(Seq::empty())
    } else {
        match (entries_of(m.drop_last(), f), f(m.last().1)) {
            (Some(rest), Some(t)) => Some(collections::inserted(rest, m.last().0, t)),
            _ => None,
        }
    }
}

/// The entries of a member; missing stands for none.
pub open spec fn entry_map_of<T>(
    v: Option<json::JsonView>,
    f: spec_fn(json::JsonView) -> Option<T>,
) -> Option<Seq<(Seq<char>, T)>> {
    match v {
        None => Some(Seq::empty()),
        Some(json::JsonView::Object(m)) => entries_of(m, f),
        _ => None,
    }
}

proof fn lemma_entries_fail<T>(
    m: Seq<(Seq<char>, json::JsonView)>,
    f: spec_fn(json::JsonView) -> Option<T>,
    i: int,
)
    requires
        0 <= i <= m.len(),
        entries_of(m.take(i), f) is None,
    ensures
        entries_of(m, f) is None,
    decreases m.len() - i,
{
    if i < m.len() {
        assert(m.take(i + 1).drop_last() =~= m.take(i));
        lemma_entries_fail(m, f, i + 1);
    } else {
        assert(m.take(i) =~= m);
    }
}

/// The members of an object; none if the member is missing.
fn section<'a>(j: &'a Json, k: &str) -> (r: Option<Option<&'a Vec<(String, Json)>>>)
    ensures
        match r {
            Some(Some(m)) => json::get_of(j@, k@) == Some(
                json::JsonView::Object(json::members(m@)),
            ),
            Some(None) => json::get_of(j@, k@) is None,
            None => json::get_of(j@, k@) is Some && !(json::get_of(j@, k@)->0 is Object),
        },
{
    match j.get(k) {
        None => Some(None),
        Some(Json::Object(m)) => {
            proof {
                json::lemma_object_view(*m);
            }
            Some(Some(m))
        },
        _ => None,
    }
}

/// The entries of a member, each read by `read`: `f` says what an entry stands
/// for, and `g` what was read consists of.
fn read_entries<T, W, R: Fn(&Json) -> Option<T>>(
    j: &Json,
    k: &str,
    read: R,
    Ghost(f): Ghost<spec_fn(json::JsonView) -> Option<W>>,
    Ghost(g): Ghost<spec_fn(T) -> W>,
) -> (r: Option<StrMap<T>>)
    requires
        forall|v: &Json| call_requires(read, (v,)),
        forall|v: &Json, t: Option<T>| #[trigger]
            call_ensures(read, (v,), t) ==> f(v@) == match t {
                Some(t) => Some(g(t)),
                None => None,
            },
    ensures
        entry_map_of(json::get_of(j@, k@), f) == match r {
            Some(m) => Some(collections::with_values(m@, g)),
            None => None,
        },
{
    let mut out: StrMap<T> = StrMap::new();
    assert(collections::with_values(out@, g) =~= Seq::empty());
    if let Some(m) = section(j, k)? {
        let ghost all = json::members(m@);
        let n: usize = m.len();
        let mut i: usize = 0;
        while i < n
            invariant
                i <= n,
                n == m@.len(),
                forall|v: &Json| call_requires(read, (v,)),
                forall|v: &Json, t: Option<T>| #[trigger]
                    call_ensures(read, (v,), t) ==> f(v@) == match t {
                        Some(t) => Some(g(t)),
                        None => None,
                    },
                all == json::members(m@),
                json::get_of(j@, k@) == Some(json::JsonView::Object(all)),
                entries_of(all.take(i as int), f) == Some(collections::with_values(out@, g)),
            decreases n - i,
        {
            proof {
                assert(all.take(i + 1).drop_last() =~= all.take(i as int));
                assert(all.take(i + 1).last() == (m@[i as int].0@, m@[i as int].1@));
            }
            match read(&m[i].1) {
                Some(t) => {
                    proof {
                        collections::lemma_with_values(out@, m@[i as int].0@, t, g);
                    }
                    out.insert(m[i].0.clone(), t);
                },
                None => {
                    proof {
                        lemma_entries_fail(all, f, i + 1);
                    }
                    return None;
                },
            }
            i += 1;
        }
        assert(all.take(n as int) =~= all);
    }
    Some(out)
}

fn read_basics(j: &Json, k: &str) -> (r: Option<StrMap<HttpBasic>>)
    ensures
        match r {
            Some(m) => entry_map_of(json::get_of(j@, k@), |v: json::JsonView| basic_json(v))
                == Some(collections::with_values(m@, |b: HttpBasic| basic_view(b))),
            None => entry_map_of(json::get_of(j@, k@), |v: json::JsonView| basic_json(v)) is None,
        },
{
    read_entries::<HttpBasic, (Seq<char>, Seq<char>), _>(
        j,
        k,
        read_basic,
        Ghost(|v: json::JsonView| basic_json(v)),
        Ghost(|b: HttpBasic| basic_view(b)),
    )
}

fn read_tokens(j: &Json, k: &str) -> (r: Option<StrMap<GitlabToken>>)
    ensures
        match r {
            Some(m) => entry_map_of(json::get_of(j@, k@), |v: json::JsonView| token_json(v))
                == Some(collections::with_values(m@, |t: GitlabToken| token_view(t))),
            None => entry_map_of(json::get_of(j@, k@), |v: json::JsonView| token_json(v)) is None,
        },
{
    read_entries::<GitlabToken, TokenView, _>(
        j,
        k,
        read_token,
        Ghost(|v: json::JsonView| token_json(v)),
        Ghost(|t: GitlabToken| token_view(t)),
    )
}

fn read_oauths(j: &Json, k: &str) -> (r: Option<StrMap<GitlabOauth>>)
    ensures
        match r {
            Some(m) => entry_map_of(json::get_of(j@, k@), |v: json::JsonView| oauth_json(v))
                == Some(collections::with_values(m@, |o: GitlabOauth| oauth_view(o))),
            None => entry_map_of(json::get_of(j@, k@), |v: json::JsonView| oauth_json(v)) is None,
        },
{
    read_entries::<GitlabOauth, OauthView, _>(
        j,
        k,
        read_oauth,
        Ghost(|v: json::JsonView| oauth_json(v)),
        Ghost(|o: GitlabOauth| oauth_view(o)),
    )
}

/// What a store consists of.
pub struct StoreView {
    pub http_basic: Seq<(Seq<char>, (Seq<char>, Seq<char>))>,
    pub github_oauth: Seq<(Seq<char>, Seq<char>)>,
    pub gitlab_token: Seq<(Seq<char>, TokenView)>,
    pub gitlab_oauth: Seq<(Seq<char>, OauthView)>,
    pub bearer: Seq<(Seq<char>, Seq<char>)>,
    pub rest: Seq<(Seq<char>, json::JsonView)>,
}

impl View for AuthStore {
    type V = StoreView;

    open spec fn view(&self) -> StoreView {
        StoreView {
            http_basic: collections::with_values(self.http_basic@, |b: HttpBasic| basic_view(b)),
            github_oauth: collections::link_pairs(self.github_oauth),
            gitlab_token: collections::with_values(
                self.gitlab_token@,
                |t: GitlabToken| token_view(t),
            ),
            gitlab_oauth: collections::with_values(
                self.gitlab_oauth@,
                |o: GitlabOauth| oauth_view(o),
            ),
            bearer: collections::link_pairs(self.bearer),
            rest: fields::value_pairs(self.rest),
        }
    }
}

/// The members of an `auth.json` that are read.
pub open spec fn known_members() -> Seq<Seq<char>> {
    seq!["http-basic"@, "github-oauth"@, "gitlab-token"@, "gitlab-oauth"@, "bearer"@]
}

/// The store that a value describes.
pub open spec fn store_json(j: json::JsonView) -> Option<StoreView> {
    match fields::object_of(j, known_members()) {
        Some(o) => store_object(o),
        None => None,
    }
}

/// The store that the members of an object describe.
pub open spec fn store_object(j: json::JsonView) -> Option<StoreView> {
    let http_basic = entry_map_of(
        json::get_of(j, "http-basic"@),
        |v: json::JsonView| basic_json(v),
    );
    let github = fields::link_map_of(json::get_of(j, "github-oauth"@));
    let token = entry_map_of(
        json::get_of(j, "gitlab-token"@),
        |v: json::JsonView| token_json(v),
    );
    let oauth = entry_map_of(
        json::get_of(j, "gitlab-oauth"@),
        |v: json::JsonView| oauth_json(v),
    );
    let bearer = fields::link_map_of(json::get_of(j, "bearer"@));
    if j is Object && http_basic is Some && github is Some && token is Some && oauth is Some
        && bearer is Some {
        Some(
            StoreView {
                http_basic: http_basic->0,
                github_oauth: github->0,
                gitlab_token: token->0,
                gitlab_oauth: oauth->0,
                bearer: bearer->0,
                rest: fields::other_members(j->Object_0, known_members()),
            },
        )
    } else {
        None
    }
}

impl AuthStore {
    /// The store that a value describes.
    pub fn from_json(j: &Json) -> (r: Option<AuthStore>)
        ensures
            match r {
                Some(s) => store_json(j@) == Some(s@),
                None => store_json(j@) is None,
            },
    {
        let members = match j {
            Json::Object(m) => m,
            _ => {
                return None;
            },
        };
        proof {
            json::lemma_object_view(*members);
        }
        let mut known: Vec<&str> = Vec::new();
        known.push("http-basic");
        known.push("github-oauth");
        known.push("gitlab-token");
        known.push("gitlab-oauth");
        known.push("bearer");
        assert(text::views(known@) =~= known_members());
        if !fields::is_object_of(j, &known) {
            return None;
        }
        let http_basic = read_basics(j, "http-basic")?;
        let github_oauth = fields::read_links(j, "github-oauth")?;
        let gitlab_token = read_tokens(j, "gitlab-token")?;
        let gitlab_oauth = read_oauths(j, "gitlab-oauth")?;
        let bearer = fields::read_links(j, "bearer")?;
        let rest = fields::read_others(members, &known);
        Some(AuthStore { http_basic, github_oauth, gitlab_token, gitlab_oauth, bearer, rest })
    }

    /// The store in a text.
    pub fn from_str(text: &str) -> (r: Result<AuthStore, Error>)
        ensures
            match json::kept_read(vstd::utf8::encode_utf8(text@)) {
                Ok(j) => match store_json(j) {
                    Some(s) => r is Ok && r->Ok_0@ == s,
                    None => r matches Err(Error::Other(t)) && t@ == "auth json: not an auth.json"@,
                },
                Err(fault) => r matches Err(Error::Other(t)) && t@ == "auth json: "@ + fault,
            },
    {
        match json::read_kept(text.as_bytes()) {
            Ok(j) => match AuthStore::from_json(&j) {
                Some(s) => Ok(s),
                None => Err(Error::other("auth json: not an auth.json")),
            },
            Err(fault) => Err(Error::Other(text::cat("auth json: ", fault.as_str()))),
        }
    }

    /// The store in the content of an `auth.json`.
    pub fn from_file(body: &str) -> (r: Result<AuthStore, Error>)
        ensures
            match json::kept_read(vstd::utf8::encode_utf8(body@)) {
                Ok(j) => match store_json(j) {
                    Some(s) => r is Ok && r->Ok_0@ == s,
                    None => r matches Err(Error::Other(t)) && t@ == "auth.json: not an auth.json"@,
                },
                Err(fault) => r matches Err(Error::Other(t)) && t@ == "auth.json: "@ + fault,
            },
    {
        match json::read_kept(body.as_bytes()) {
            Ok(j) => match AuthStore::from_json(&j) {
                Some(s) => Ok(s),
                None => Err(Error::other("auth.json: not an auth.json")),
            },
            Err(fault) => Err(Error::Other(text::cat("auth.json: ", fault.as_str()))),
        }
    }
}

// ---------------------------------------------------------------------------
// Tokens

/// The words by which Composer marks the kind of a GitLab token.
pub open spec fn is_token_kind(s: Seq<char>) -> bool {
    s == "private-token"@ || s == "gitlab-ci-token"@ || s == "oauth2"@
}

/// Whether a word marks the kind of a GitLab token.
pub fn is_gitlab_token_kind(s: &str) -> (r: bool)
    ensures
        r == is_token_kind(s@),
{
    text::same(s, "private-token") || text::same(s, "gitlab-ci-token") || text::same(s, "oauth2")
}

/// How a token of the given kind is sent.
pub open spec fn token_auth(identity: Seq<char>, kind: Seq<char>) -> HostAuthView {
    if kind == "oauth2"@ {
        HostAuthView::Bearer(identity)
    } else {
        HostAuthView::TokenHeader("PRIVATE-TOKEN"@, identity)
    }
}

/// How a GitLab token is sent. In a pair the kind may stand on either side; a
/// pair without a kind is a user name with a password.
pub open spec fn gitlab_auth(t: GitlabToken) -> HostAuthView {
    match t {
        GitlabToken::Personal(token) => HostAuthView::TokenHeader("PRIVATE-TOKEN"@, token@),
        GitlabToken::Pair { username, token } => if is_token_kind(username@) {
            token_auth(token@, username@)
        } else if is_token_kind(token@) {
            token_auth(username@, token@)
        } else {
            HostAuthView::Basic(username@, token@)
        },
    }
}

fn send_token(identity: &str, kind: &str) -> (r: HostAuth)
    ensures
        r@ == token_auth(identity@, kind@),
{
    if text::same(kind, "oauth2") {
        HostAuth::Bearer(String::from_str(identity))
    } else {
        HostAuth::TokenHeader { name: "PRIVATE-TOKEN", value: String::from_str(identity) }
    }
}

impl GitlabToken {
    /// How the token is sent.
    pub fn to_host_auth(&self) -> (r: HostAuth)
        ensures
            r@ == gitlab_auth(*self),
    {
        match self {
            GitlabToken::Personal(token) => HostAuth::TokenHeader {
                name: "PRIVATE-TOKEN",
                value: token.clone(),
            },
            GitlabToken::Pair { username, token } => {
                if is_gitlab_token_kind(username.as_str()) {
                    send_token(token.as_str(), username.as_str())
                } else if is_gitlab_token_kind(token.as_str()) {
                    send_token(username.as_str(), token.as_str())
                } else {
                    HostAuth::Basic { username: username.clone(), password: token.clone() }
                }
            },
        }
    }
}

/// The access token of a GitLab OAuth entry.
pub open spec fn oauth_token(o: GitlabOauth) -> Seq<char> {
    match o {
        GitlabOauth::Token(t) => t@,
        GitlabOauth::Refresh { token, .. } => token@,
    }
}

impl GitlabOauth {
    /// The access token.
    pub fn access_token(&self) -> (r: &str)
        ensures
            r@ == oauth_token(*self),
    {
        match self {
            GitlabOauth::Token(t) => t.as_str(),
            GitlabOauth::Refresh { token, expires_at: _, refresh_token: _ } => token.as_str(),
        }
    }
}

// ---------------------------------------------------------------------------
// Lookup

/// The entry for a host: under its name with port, without, or under either
/// with a scheme.
pub open spec fn host_entry<T>(
    m: Seq<(Seq<char>, T)>,
    host: Seq<char>,
    bare: Seq<char>,
) -> Option<T> {
    if let Some(t) = collections::lookup(m, host) {
        Some(t)
    } else if let Some(t) = collections::lookup(m, bare) {
        Some(t)
    } else if let Some(t) = collections::lookup(m, "https://"@ + host) {
        Some(t)
    } else {
        collections::lookup(m, "https://"@ + bare)
    }
}

/// The entry for a host.
pub fn lookup_host_map<'a, T>(map: &'a StrMap<T>, host: &str, bare: &str) -> (r: Option<&'a T>)
    ensures
        match r {
            Some(t) => host_entry(map@, host@, bare@) == Some(*t),
            None => host_entry(map@, host@, bare@) is None,
        },
{
    if let Some(t) = map.get(host) {
        return Some(t);
    }
    if let Some(t) = map.get(bare) {
        return Some(t);
    }
    let with_scheme = text::cat("https://", host);
    if let Some(t) = map.get(with_scheme.as_str()) {
        return Some(t);
    }
    let bare_scheme = text::cat("https://", bare);
    map.get(bare_scheme.as_str())
}

/// A host without its port.
pub open spec fn bare_host(host: Seq<char>) -> Seq<char> {
    match text::parted(host, ":"@) {
        Some((h, _)) => h,
        None => host,
    }
}

/// The GitHub token for a host, where the host is one of GitHub's.
pub open spec fn github_auth(m: Seq<(Seq<char>, String)>, host: Seq<char>) -> Option<HostAuthView> {
    let bare = bare_host(host);
    let token = if let Some(t) = collections::lookup(m, host) {
        Some(t)
    } else if let Some(t) = collections::lookup(m, bare) {
        Some(t)
    } else {
        collections::lookup(m, "github.com"@)
    };
    match token {
        Some(t) => if text::occurs(host, "github"@) || bare == "api.github.com"@ || bare
            == "github.com"@ {
            Some(HostAuthView::TokenHeader("Authorization"@, "token "@ + t@))
        } else {
            None
        },
        None => None,
    }
}

/// The credentials for a host. GitLab tokens come first, then GitLab OAuth,
/// user names with passwords, bearer tokens and GitHub tokens.
pub open spec fn auth_for_host(s: AuthStore, host: Seq<char>) -> Option<HostAuthView> {
    let bare = bare_host(host);
    if let Some(t) = host_entry(s.gitlab_token@, host, bare) {
        Some(gitlab_auth(t))
    } else if let Some(t) = host_entry(s.gitlab_oauth@, host, bare) {
        Some(HostAuthView::Bearer(oauth_token(t)))
    } else if let Some(b) = host_entry(s.http_basic@, host, bare) {
        Some(HostAuthView::Basic(b.username@, b.password@))
    } else if let Some(t) = host_entry(s.bearer@, host, bare) {
        Some(HostAuthView::Bearer(t@))
    } else {
        github_auth(s.github_oauth@, host)
    }
}

/// The host and the port of a URL.
pub uninterp spec fn url_authority(url: Seq<char>) -> Option<(Seq<char>, Option<u16>)>;

/// What `url::Url::parse` finds in a URL: its host as `host_str` gives it and
/// its port as `port` gives it, nothing for a text that is no URL or has no
/// host.
#[verifier::external_body]
fn url_host_port(url: &str) -> (r: Option<(String, Option<u16>)>)
    ensures
        match r {
            Some((host, port)) => url_authority(url@) == Some((host@, port)),
            None => url_authority(url@) is None,
        },
{
    let parsed = url::Url::parse(url).ok()?;
    Some((parsed.host_str()?.to_string(), parsed.port()))
}

/// The name under which a URL's credentials are looked up: its host, with the
/// port where it has one.
pub open spec fn authority_key(a: (Seq<char>, Option<u16>)) -> Seq<char> {
    match a.1 {
        Some(p) => a.0 + ":"@ + text::decimal(p as nat),
        None => a.0,
    }
}

/// The name under which the credentials of a host and port are looked up.
pub fn key_of_authority(host: &str, port: Option<u16>) -> (r: String)
    ensures
        r@ == authority_key((host@, port)),
{
    match port {
        Some(p) => text::cat3(host, ":", text::u64_text(p as u64).as_str()),
        None => String::from_str(host),
    }
}

/// The name under which a URL's credentials are looked up.
pub fn host_key(url: &str) -> (r: Option<String>)
    ensures
        text::opt_text(r) == match url_authority(url@) {
            Some(a) => Some(authority_key(a)),
            None => None,
        },
{
    match url_host_port(url) {
        Some((host, port)) => Some(key_of_authority(host.as_str(), port)),
        None => None,
    }
}

/// What an optional credential consists of.
pub open spec fn opt_auth(a: Option<HostAuth>) -> Option<HostAuthView> {
    match a {
        Some(h) => Some(h@),
        None => None,
    }
}

impl AuthStore {
    /// The credentials for a URL.
    pub fn for_url(&self, url: &str) -> (r: Option<HostAuth>)
        ensures
            opt_auth(r) == match url_authority(url@) {
                Some(a) => auth_for_host(*self, authority_key(a)),
                None => None,
            },
    {
        match host_key(url) {
            Some(host) => self.for_host(host.as_str()),
            None => None,
        }
    }

    /// The credentials for a host.
    pub fn for_host(&self, host: &str) -> (r: Option<HostAuth>)
        ensures
            opt_auth(r) == auth_for_host(*self, host@),
    {
        let bare = match text::split_once(host, ":") {
            Some((h, _)) => h,
            None => host,
        };
        if let Some(t) = lookup_host_map(&self.gitlab_token, host, bare) {
            return Some(t.to_host_auth());
        }
        if let Some(t) = lookup_host_map(&self.gitlab_oauth, host, bare) {
            return Some(HostAuth::Bearer(String::from_str(t.access_token())));
        }
        if let Some(b) = lookup_host_map(&self.http_basic, host, bare) {
            return Some(
                HostAuth::Basic { username: b.username.clone(), password: b.password.clone() },
            );
        }
        if let Some(t) = lookup_host_map(&self.bearer, host, bare) {
            return Some(HostAuth::Bearer(t.clone()));
        }
        let token = match self.github_oauth.get(host) {
            Some(t) => Some(t),
            None => match self.github_oauth.get(bare) {
                Some(t) => Some(t),
                None => self.github_oauth.get("github.com"),
            },
        };
        if let Some(t) = token {
            if text::contains(host, "github") || text::same(bare, "api.github.com") || text::same(
                bare,
                "github.com",
            ) {
                return Some(
                    HostAuth::TokenHeader {
                        name: "Authorization",
                        value: text::cat("token ", t.as_str()),
                    },
                );
            }
        }
        None
    }
}

// ---------------------------------------------------------------------------
// Merging

/// The entries of `a` and, for the keys that `a` lacks, those of `b`.
pub open spec fn merged<T>(a: Seq<(Seq<char>, T)>, b: Seq<(Seq<char>, T)>) -> Seq<(Seq<char>, T)>
    decreases b.len(),
{
    if b.len() == 0 {
        a
    } else {
        let m = merged(a, b.drop_last());
        if collections::lookup(m, b.last().0) is Some {
            m
        } else {
            collections::inserted(m, b.last().0, b.last().1)
        }
    }
}

proof fn lemma_lookup_last<T>(b: Seq<(Seq<char>, T)>, k: Seq<char>)
    requires
        b.len() > 0,
    ensures
        collections::lookup(b, k) == match collections::lookup(b.drop_last(), k) {
            Some(v) => Some(v),
            None => if b.last().0 == k {
                Some(b.last().1)
            } else {
                None
            },
        },
    decreases b.len(),
{
    if b.len() == 1 {
        assert(b.skip(1).len() == 0);
    } else if b[0].0 != k {
        lemma_lookup_last(b.skip(1), k);
        assert(b.skip(1).drop_last() =~= b.drop_last().skip(1));
        assert(b.skip(1).last() == b.last());
    }
}

/// In a merge the first store wins, and the second fills what it lacks.
pub proof fn law_first_store_wins<T>(a: Seq<(Seq<char>, T)>, b: Seq<(Seq<char>, T)>, k: Seq<char>)
    ensures
        collections::lookup(merged(a, b), k) == match collections::lookup(a, k) {
            Some(v) => Some(v),
            None => collections::lookup(b, k),
        },
    decreases b.len(),
{
    if b.len() > 0 {
        law_first_store_wins(a, b.drop_last(), k);
        lemma_lookup_last(b, k);
        let m = merged(a, b.drop_last());
        if collections::lookup(m, b.last().0) is None {
            collections::law_lookup_inserted(m, b.last().0, b.last().1, k);
        }
    }
}

/// Merging a store with itself changes nothing.
pub proof fn law_merge_with_itself<T>(a: Seq<(Seq<char>, T)>, n: int)
    requires
        0 <= n <= a.len(),
    ensures
        merged(a, a.take(n)) == a,
    decreases n,
{
    if n > 0 {
        law_merge_with_itself(a, n - 1);
        assert(a.take(n).drop_last() =~= a.take(n - 1));
        lemma_lookup_member(a, n - 1);
    }
}

proof fn lemma_lookup_member<T>(a: Seq<(Seq<char>, T)>, i: int)
    requires
        0 <= i < a.len(),
    ensures
        collections::lookup(a, a[i].0) is Some,
    decreases a.len(),
{
    if a[0].0 != a[i].0 {
        lemma_lookup_member(a.skip(1), i - 1);
    }
}

fn merge_map<T>(into: &mut StrMap<T>, from: StrMap<T>)
    ensures
        final(into)@ == merged(old(into)@, from@),
{
    let ghost a = into@;
    let ghost b = from@;
    let mut rest = from.entries;
    let ghost mut done: int = 0;
    assert(b.skip(0) =~= b);
    while rest.len() > 0
        invariant
            0 <= done <= b.len(),
            collections::pairs(rest@) == b.skip(done),
            into@ == merged(a, b.take(done)),
        decreases rest@.len(),
    {
        let ghost before = rest@;
        let (k, v) = rest.remove(0);
        proof {
            assert(collections::pairs(before).len() == before.len());
            assert(done < b.len());
            assert(collections::pairs(before)[0] == (k@, v));
            assert(b.skip(done)[0] == b[done]);
            assert(b.take(done + 1).drop_last() =~= b.take(done));
            assert forall|i: int| 0 <= i < rest@.len() implies collections::pairs(rest@)[i]
                == b.skip(done + 1)[i] by {
                assert(collections::pairs(before)[i + 1] == b.skip(done)[i + 1]);
            }
            assert(collections::pairs(rest@) =~= b.skip(done + 1));
        }
        if !into.contains_key(k.as_str()) {
            into.insert(k, v);
        }
        proof {
            done = done + 1;
        }
    }
    proof {
        assert(collections::pairs(rest@).len() == 0);
        assert(b.take(done) =~= b);
    }
}

impl AuthStore {
    /// Takes over the entries of `other` that this store lacks.
    pub fn merge_prefer_self(&mut self, other: AuthStore)
        ensures
            final(self).http_basic@ == merged(old(self).http_basic@, other.http_basic@),
            final(self).github_oauth@ == merged(old(self).github_oauth@, other.github_oauth@),
            final(self).gitlab_token@ == merged(old(self).gitlab_token@, other.gitlab_token@),
            final(self).gitlab_oauth@ == merged(old(self).gitlab_oauth@, other.gitlab_oauth@),
            final(self).bearer@ == merged(old(self).bearer@, other.bearer@),
            final(self).rest@ == merged(old(self).rest@, other.rest@),
    {
        merge_map(&mut self.http_basic, other.http_basic);
        merge_map(&mut self.github_oauth, other.github_oauth);
        merge_map(&mut self.gitlab_token, other.gitlab_token);
        merge_map(&mut self.gitlab_oauth, other.gitlab_oauth);
        merge_map(&mut self.bearer, other.bearer);
        merge_map(&mut self.rest, other.rest);
    }
}

/// A GitLab token for a host wins over every other credential for it.
pub proof fn law_gitlab_token_wins(s: AuthStore, host: Seq<char>)
    requires
        host_entry(s.gitlab_token@, host, bare_host(host)) is Some,
    ensures
        auth_for_host(s, host) == Some(
            gitlab_auth(host_entry(s.gitlab_token@, host, bare_host(host))->0),
        ),
{
}

// ---------------------------------------------------------------------------
// Where credentials are kept

/// A setting that is present and not empty.
pub open spec fn set_text(v: Option<Seq<char>>) -> Option<Seq<char>> {
    match v {
        Some(t) => if t.len() > 0 {
            Some(t)
        } else {
            None
        },
        None => None,
    }
}

/// The home directory of Composer: the one that was set, else `~/.composer`
/// where it exists, else `composer` below the configuration directory.
pub open spec fn home_of(
    set: Option<Seq<char>>,
    user_home: Option<Seq<char>>,
    legacy_exists: bool,
    xdg: Option<Seq<char>>,
) -> Option<Seq<char>> {
    if let Some(h) = set_text(set) {
        Some(h)
    } else {
        match user_home {
            None => None,
            Some(home) => if legacy_exists {
                Some(paths::joined_path(home, ".composer"@))
            } else if let Some(x) = set_text(xdg) {
                Some(paths::joined_path(x, "composer"@))
            } else {
                Some(paths::joined_path(paths::joined_path(home, ".config"@), "composer"@))
            },
        }
    }
}

/// The home directory of Composer.
pub fn composer_home(
    set: Option<&str>,
    user_home: Option<&str>,
    legacy_exists: bool,
    xdg: Option<&str>,
) -> (r: Option<String>)
    ensures
        text::opt_text(r) == home_of(
            text::opt_view(set),
            text::opt_view(user_home),
            legacy_exists,
            text::opt_view(xdg),
        ),
{
    if let Some(h) = set {
        if !h.is_empty() {
            return Some(String::from_str(h));
        }
    }
    let home = match user_home {
        Some(h) => h,
        None => {
            return None;
        },
    };
    if legacy_exists {
        return Some(paths::join_path(home, ".composer"));
    }
    if let Some(x) = xdg {
        if !x.is_empty() {
            return Some(paths::join_path(x, "composer"));
        }
    }
    Some(paths::join_path(paths::join_path(home, ".config").as_str(), "composer"))
}

/// The path of the global credentials: `auth.json` in the home directory of
/// Composer.
pub open spec fn global_path_of(
    set: Option<Seq<char>>,
    user_home: Option<Seq<char>>,
    legacy_exists: bool,
    xdg: Option<Seq<char>>,
) -> Option<Seq<char>> {
    match home_of(set, user_home, legacy_exists, xdg) {
        Some(h) => Some(paths::joined_path(h, "auth.json"@)),
        None => None,
    }
}

/// The path of the global credentials.
pub fn global_auth_path(
    set: Option<&str>,
    user_home: Option<&str>,
    legacy_exists: bool,
    xdg: Option<&str>,
) -> (r: Option<String>)
    ensures
        text::opt_text(r) == global_path_of(
            text::opt_view(set),
            text::opt_view(user_home),
            legacy_exists,
            text::opt_view(xdg),
        ),
{
    match composer_home(set, user_home, legacy_exists, xdg) {
        Some(h) => Some(paths::join_path(h.as_str(), "auth.json")),
        None => None,
    }
}

/// The paths at which global credentials may be kept, in the order in which
/// they are read.
pub open spec fn auth_candidates(
    set: Option<Seq<char>>,
    user_home: Option<Seq<char>>,
    legacy_exists: bool,
    xdg: Option<Seq<char>>,
) -> Seq<Seq<char>> {
    let first = match global_path_of(set, user_home, legacy_exists, xdg) {
        Some(p) => seq![p],
        None => Seq::empty(),
    };
    let second = match user_home {
        Some(h) => seq![
            paths::joined_path(paths::joined_path(h, ".composer"@), "auth.json"@),
            paths::joined_path(
                paths::joined_path(paths::joined_path(h, ".config"@), "composer"@),
                "auth.json"@,
            ),
        ],
        None => Seq::empty(),
    };
    let third = match set_text(xdg) {
        Some(x) => seq![
            paths::joined_path(paths::joined_path(x, "composer"@), "auth.json"@),
        ],
        None => Seq::empty(),
    };
    first + second + third
}

/// The texts of a list, each at its first place only.
pub open spec fn first_places(s: Seq<Seq<char>>) -> Seq<Seq<char>>
    decreases s.len(),
{
    if s.len() == 0 {
        s
    } else {
        let rest = first_places(s.drop_last());
        if rest.contains(s.last()) {
            rest
        } else {
            rest.push(s.last())
        }
    }
}

/// The texts of a list, each at its first place only.
pub fn without_repeats(v: &Vec<String>) -> (r: Vec<String>)
    ensures
        text::texts(r@) == first_places(text::texts(v@)),
{
    let ghost all = text::texts(v@);
    let mut out: Vec<String> = Vec::new();
    let n: usize = v.len();
    let mut i: usize = 0;
    assert(text::texts(out@) =~= first_places(all.take(0)));
    while i < n
        invariant
            i <= n,
            n == v@.len(),
            all == text::texts(v@),
            text::texts(out@) == first_places(all.take(i as int)),
        decreases n - i,
    {
        proof {
            assert(all.take(i + 1).drop_last() =~= all.take(i as int));
            assert(all.take(i + 1).last() == v@[i as int]@);
        }
        if !collections::contains_text(&out, v[i].as_str()) {
            let ghost before = out@;
            out.push(v[i].clone());
            assert(text::texts(out@) =~= text::texts(before).push(v@[i as int]@));
        }
        i += 1;
    }
    assert(all.take(n as int) =~= all);
    out
}

/// The paths at which global credentials may be kept. A path can stand there
/// twice.
pub fn global_auth_candidates(
    set: Option<&str>,
    user_home: Option<&str>,
    legacy_exists: bool,
    xdg: Option<&str>,
) -> (r: Vec<String>)
    ensures
        text::texts(r@) == auth_candidates(
            text::opt_view(set),
            text::opt_view(user_home),
            legacy_exists,
            text::opt_view(xdg),
        ),
{
    let mut out: Vec<String> = Vec::new();
    if let Some(p) = global_auth_path(set, user_home, legacy_exists, xdg) {
        out.push(p);
    }
    if let Some(h) = user_home {
        out.push(paths::join_path(paths::join_path(h, ".composer").as_str(), "auth.json"));
        let config = paths::join_path(h, ".config");
        let dir = paths::join_path(config.as_str(), "composer");
        out.push(paths::join_path(dir.as_str(), "auth.json"));
    }
    if let Some(x) = xdg {
        if !x.is_empty() {
            out.push(paths::join_path(paths::join_path(x, "composer").as_str(), "auth.json"));
        }
    }
    assert(text::texts(out@) =~= auth_candidates(
        text::opt_view(set),
        text::opt_view(user_home),
        legacy_exists,
        text::opt_view(xdg),
    ));
    out
}

/// The host of an authority is what stands before its port.
pub proof fn law_host_without_port(host: Seq<char>, port: Seq<char>, n: u16)
    requires
        !host.contains(':'),
    ensures
        bare_host(host) == host,
        bare_host(host + seq![':'] + port) == host,
        authority_key((host, None)) == host,
        authority_key((host, Some(n))) == host + seq![':'] + text::decimal(n as nat),
        bare_host(authority_key((host, Some(n)))) == host,
{
    reveal_strlit(":");
    assert(":"@ =~= seq![':']);
    assert(":"@[0] == ':');
    text::lemma_not_found(host, ":"@);
    text::lemma_piece_before(host, ":"@, port);
    text::lemma_piece_before(host, ":"@, text::decimal(n as nat));
}

/// A map has an entry for a host under the host itself, with or without its port,
/// and under its `https` address.
pub open spec fn has_host<T>(m: Seq<(Seq<char>, T)>, host: Seq<char>) -> bool {
    ||| collections::lookup(m, host) is Some
    ||| collections::lookup(m, bare_host(host)) is Some
    ||| collections::lookup(m, "https://"@ + host) is Some
    ||| collections::lookup(m, "https://"@ + bare_host(host)) is Some
}

/// Credentials go to a host only where an entry is for it; those for GitHub go to
/// GitHub alone.
pub proof fn law_who_gets_credentials(s: AuthStore, host: Seq<char>)
    ensures
        auth_for_host(s, host) is Some ==> has_host(s.gitlab_token@, host) || has_host(
            s.gitlab_oauth@,
            host,
        ) || has_host(s.http_basic@, host) || has_host(s.bearer@, host) || text::occurs(
            host,
            "github"@,
        ) || bare_host(host) == "api.github.com"@ || bare_host(host) == "github.com"@,
        has_host(s.gitlab_token@, host) || has_host(s.gitlab_oauth@, host) || has_host(
            s.http_basic@,
            host,
        ) || has_host(s.bearer@, host) ==> auth_for_host(s, host) is Some,
{
}

/// Of the entries for a host, tokens of GitLab count first, then its OAuth, then
/// user names, then bearers, then the token of GitHub.
pub proof fn law_order_of_credentials(s: AuthStore, host: Seq<char>, t: String, b: HttpBasic)
    requires
        !has_host(s.gitlab_token@, host),
    ensures
        collections::lookup(s.gitlab_oauth@, host) == Some(GitlabOauth::Token(t))
            ==> auth_for_host(s, host) == Some(HostAuthView::Bearer(t@)),
        !has_host(s.gitlab_oauth@, host) ==> {
            &&& collections::lookup(s.http_basic@, host) == Some(b) ==> auth_for_host(s, host)
                == Some(HostAuthView::Basic(b.username@, b.password@))
            &&& !has_host(s.http_basic@, host) ==> {
                &&& collections::lookup(s.bearer@, host) == Some(t) ==> auth_for_host(s, host)
                    == Some(HostAuthView::Bearer(t@))
                &&& !has_host(s.bearer@, host) && collections::lookup(s.github_oauth@, host)
                    == Some(t) && text::occurs(host, "github"@) ==> auth_for_host(s, host) == Some(
                    HostAuthView::TokenHeader("Authorization"@, "token "@ + t@),
                )
                &&& !has_host(s.bearer@, host) && host == "api.github.com"@ && collections::lookup(
                    s.github_oauth@,
                    host,
                ) is None && collections::lookup(s.github_oauth@, "github.com"@) == Some(t)
                    && bare_host(host) == host ==> auth_for_host(s, host) == Some(
                    HostAuthView::TokenHeader("Authorization"@, "token "@ + t@),
                )
            }
        },
{
}

/// How a token of GitLab is sent: alone or beside the kind of a token in its own
/// header or as a bearer, else as a user name and a password.
pub proof fn law_tokens_of_gitlab(a: String, b: String)
    ensures
        gitlab_auth(GitlabToken::Personal(a)) == HostAuthView::TokenHeader("PRIVATE-TOKEN"@, a@),
        a@ == "oauth2"@ ==> gitlab_auth(GitlabToken::Pair { username: a, token: b })
            == HostAuthView::Bearer(b@),
        a@ == "private-token"@ || a@ == "gitlab-ci-token"@ ==> gitlab_auth(
            GitlabToken::Pair { username: a, token: b },
        ) == HostAuthView::TokenHeader("PRIVATE-TOKEN"@, b@),
        (a@ != "oauth2"@ && a@ != "private-token"@ && a@ != "gitlab-ci-token"@) ==> {
            &&& b@ == "oauth2"@ ==> gitlab_auth(GitlabToken::Pair { username: a, token: b })
                == HostAuthView::Bearer(a@)
            &&& b@ == "private-token"@ || b@ == "gitlab-ci-token"@ ==> gitlab_auth(
                GitlabToken::Pair { username: a, token: b },
            ) == HostAuthView::TokenHeader("PRIVATE-TOKEN"@, a@)
            &&& (b@ != "oauth2"@ && b@ != "private-token"@ && b@ != "gitlab-ci-token"@)
                ==> gitlab_auth(GitlabToken::Pair { username: a, token: b }) == HostAuthView::Basic(
                a@,
                b@,
            )
        },
{
    reveal_strlit("oauth2");
    reveal_strlit("private-token");
    reveal_strlit("gitlab-ci-token");
    assert("oauth2"@.len() == 6 && "private-token"@.len() == 13 && "gitlab-ci-token"@.len() == 15);
}

/// Where `auth.json` is looked for.
pub proof fn law_where_auth_lies(
    set: Option<Seq<char>>,
    home: Seq<char>,
    legacy: bool,
    xdg: Option<Seq<char>>,
)
    requires
        home.len() > 0 && home.last() != '/',
        xdg matches Some(x) ==> x.len() > 0 && x.last() != '/',
    ensures
        (set matches Some(h) && h.len() > 0) ==> home_of(set, Some(home), legacy, xdg) == set,
        set is None ==> home_of(set, Some(home), true, xdg) == Some(home + "/.composer"@),
        (set is None && xdg is None) ==> home_of(set, Some(home), false, xdg) == Some(
            home + "/.config/composer"@,
        ),
        (set is None && xdg is Some) ==> home_of(set, Some(home), false, xdg) == Some(
            xdg->0 + "/composer"@,
        ),
        set is None ==> home_of(set, None, legacy, xdg) is None,
        set is None ==> global_path_of(set, Some(home), true, xdg) == Some(
            home + "/.composer/auth.json"@,
        ),
{
    reveal_strlit("/");
    reveal_strlit(".composer");
    reveal_strlit("/.composer");
    reveal_strlit(".config");
    reveal_strlit("composer");
    reveal_strlit("/composer");
    reveal_strlit("/.config/composer");
    reveal_strlit("auth.json");
    reveal_strlit("/.composer/auth.json");
    assert(".composer"@[0] == '.' && ".config"@[0] == '.' && "composer"@[0] == 'c' && "auth.json"@[0]
        == 'a');
    assert(home + "/"@ + ".composer"@ =~= home + "/.composer"@);
    assert((home + "/.composer"@).last() == 'r');
    assert(home + "/.composer"@ + "/"@ + "auth.json"@ =~= home + "/.composer/auth.json"@);
    assert((home + "/"@ + ".config"@).last() == 'g');
    assert(home + "/"@ + ".config"@ + "/"@ + "composer"@ =~= home + "/.config/composer"@);
    if let Some(x) = xdg {
        assert(x + "/"@ + "composer"@ =~= x + "/composer"@);
    }
}

} // verus!
