use composer_rs::auth::{
    composer_home, global_auth_candidates, global_auth_path, host_key, key_of_authority,
    without_repeats, AuthStore, HostAuth,
};

#[test]
fn loads_http_basic_and_looks_up_host() {
    let raw = r#"{
            "http-basic": {
                "repo.example.com": {
                    "username": "u",
                    "password": "p"
                }
            }
        }"#;
    let store = AuthStore::from_str(raw).unwrap();
    match store.for_url("https://repo.example.com/p2/foo.json") {
        Some(HostAuth::Basic { username, password }) => {
            assert_eq!(username, "u");
            assert_eq!(password, "p");
        }
        other => panic!("unexpected {other:?}"),
    }
}

#[test]
fn env_wins_over_file_merge() {
    let mut a = AuthStore::from_str(r#"{"http-basic":{"h":{"username":"env","password":"e"}}}"#)
        .unwrap();
    let b = AuthStore::from_str(
        r#"{"http-basic":{"h":{"username":"file","password":"f"},"other":{"username":"o","password":"o"}}}"#,
    )
    .unwrap();
    a.merge_prefer_self(b);
    match a.for_host("h") {
        Some(HostAuth::Basic { username, .. }) => assert_eq!(username, "env"),
        _ => panic!("missing h"),
    }
    assert!(a.for_host("other").is_some());
}

#[test]
fn gitlab_personal_token_sends_private_token_header() {
    let store =
        AuthStore::from_str(r#"{"gitlab-token":{"gitlab.rightcapital.io":"glpat-secret"}}"#)
            .unwrap();
    match store.for_url(
        "https://gitlab.rightcapital.io/api/v4/projects/274/packages/composer/archives/pkg.zip?sha=abc",
    ) {
        Some(HostAuth::TokenHeader { name, value }) => {
            assert_eq!(name, "PRIVATE-TOKEN");
            assert_eq!(value, "glpat-secret");
        }
        other => panic!("unexpected {other:?}"),
    }
}

#[test]
fn gitlab_deploy_token_object_is_http_basic() {
    let store = AuthStore::from_str(
        r#"{
                "gitlab-token": {
                    "gitlab.example.com": {
                        "username": "gitlab+deploy-token-1",
                        "token": "gldt-xxx"
                    }
                }
            }"#,
    )
    .unwrap();
    match store.for_host("gitlab.example.com") {
        Some(HostAuth::Basic { username, password }) => {
            assert_eq!(username, "gitlab+deploy-token-1");
            assert_eq!(password, "gldt-xxx");
        }
        other => panic!("unexpected {other:?}"),
    }
}

#[test]
fn gitlab_ci_job_token_object_is_private_token() {
    let store = AuthStore::from_str(
        r#"{
                "gitlab-token": {
                    "gitlab.example.com": {
                        "username": "gitlab-ci-token",
                        "token": "ci-job"
                    }
                }
            }"#,
    )
    .unwrap();
    match store.for_host("gitlab.example.com") {
        Some(HostAuth::TokenHeader { name, value }) => {
            assert_eq!(name, "PRIVATE-TOKEN");
            assert_eq!(value, "ci-job");
        }
        other => panic!("unexpected {other:?}"),
    }
}

#[test]
fn gitlab_oauth_object_is_bearer() {
    let store = AuthStore::from_str(
        r#"{
                "gitlab-oauth": {
                    "gitlab.example.com": {
                        "token": "oauth-access",
                        "expires-at": 9999999999,
                        "refresh-token": "r"
                    }
                }
            }"#,
    )
    .unwrap();
    match store.for_host("gitlab.example.com") {
        Some(HostAuth::Bearer(t)) => assert_eq!(t, "oauth-access"),
        other => panic!("unexpected {other:?}"),
    }
}

#[test]
fn mixed_gitlab_object_does_not_drop_http_basic() {
    let store = AuthStore::from_str(
        r#"{
                "http-basic": {"packagist.org": {"username": "u", "password": "p"}},
                "gitlab-token": {
                    "gitlab.example.com": {"username": "gitlab+deploy-token-1", "token": "t"}
                }
            }"#,
    )
    .unwrap();
    assert!(store.for_host("packagist.org").is_some());
    assert!(store.for_host("gitlab.example.com").is_some());
}

#[test]
fn gitlab_token_wins_over_http_basic_on_same_host() {
    let store = AuthStore::from_str(
        r#"{
                "http-basic": {"gitlab.example.com": {"username": "u", "password": "p"}},
                "gitlab-token": {"gitlab.example.com": "glpat-preferred"}
            }"#,
    )
    .unwrap();
    match store.for_host("gitlab.example.com") {
        Some(HostAuth::TokenHeader { value, .. }) => assert_eq!(value, "glpat-preferred"),
        other => panic!("unexpected {other:?}"),
    }
}

#[test]
fn hosts_are_keyed_with_their_port() {
    assert_eq!(
        host_key("https://repo.example.com:8443/p2").unwrap(),
        "repo.example.com:8443"
    );
    assert_eq!(
        host_key("https://repo.example.com/p2").unwrap(),
        "repo.example.com"
    );
    assert!(host_key("no url at all").is_none());
    assert_eq!(key_of_authority("h", Some(81)), "h:81");
}

#[test]
fn a_port_falls_back_to_the_bare_host() {
    let store =
        AuthStore::from_str(r#"{"http-basic":{"h.example":{"username":"u","password":"p"}}}"#)
            .unwrap();
    assert!(store.for_url("https://h.example:8443/x").is_some());
    assert!(store.for_url("https://other.example/x").is_none());
}

#[test]
fn unreadable_credentials_are_an_error() {
    assert!(AuthStore::from_str("{").is_err());
    assert!(AuthStore::from_str("[]").is_err());
}

#[test]
fn places_of_global_credentials() {
    assert_eq!(
        composer_home(Some("/opt/c"), Some("/home/u"), true, None).unwrap(),
        "/opt/c"
    );
    assert_eq!(composer_home(Some(""), Some("/home/u"), true, None).unwrap(), "/home/u/.composer");
    assert_eq!(composer_home(None, Some("/home/u"), false, Some("/x")).unwrap(), "/x/composer");
    assert_eq!(
        composer_home(None, Some("/home/u"), false, Some("")).unwrap(),
        "/home/u/.config/composer"
    );
    assert!(composer_home(Some(""), None, false, Some("/x")).is_none());
    assert_eq!(
        global_auth_path(Some("/opt/c"), None, false, None).unwrap(),
        "/opt/c/auth.json"
    );
    assert!(global_auth_path(None, None, false, None).is_none());
    assert_eq!(
        global_auth_candidates(Some("/opt/c"), Some("/home/u"), false, None),
        vec![
            "/opt/c/auth.json".to_string(),
            "/home/u/.composer/auth.json".to_string(),
            "/home/u/.config/composer/auth.json".to_string(),
        ]
    );
    let all = global_auth_candidates(Some(""), Some("/home/u"), false, Some("/x"));
    assert_eq!(
        all,
        vec![
            "/x/composer/auth.json".to_string(),
            "/home/u/.composer/auth.json".to_string(),
            "/home/u/.config/composer/auth.json".to_string(),
            "/x/composer/auth.json".to_string(),
        ]
    );
    assert_eq!(without_repeats(&all), all[..3].to_vec());
}

#[test]
fn a_file_of_credentials_is_named_in_its_faults() {
    assert!(AuthStore::from_file(r#"{"bearer":{"h":"t"}}"#).unwrap().for_host("h").is_some());
    for text in ["{", "[]"] {
        let file = AuthStore::from_file(text).err().unwrap().to_text();
        let plain = AuthStore::from_str(text).err().unwrap().to_text();
        assert!(file.starts_with("auth.json: "), "{file}");
        assert!(plain.starts_with("auth json: "), "{plain}");
        assert_eq!(file["auth.json: ".len()..], plain["auth json: ".len()..]);
    }
}
