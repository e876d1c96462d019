use netdash::webapp::{dashboard_no_token, fairing, login, login_token, logout, stylesheet};

#[test]
fn login_with_correct_credentials_succeeds() {
    let r = login("admin", "SECRET-REDACTED", "admin", "SECRET-REDACTED");
    assert!(r.success);
    assert_eq!(r.target, "/");
    assert_eq!(r.message, "Successfully logged in.");
}

#[test]
fn login_with_wrong_credentials_fails() {
    let r = login("admin", "wrong", "admin", "SECRET-REDACTED");
    assert!(!r.success);
    assert_eq!(r.target, "/login");
    assert_eq!(r.message, "Invalid username/password.");

    let r = login("guest", "SECRET-REDACTED", "admin", "SECRET-REDACTED");
    assert!(!r.success);
    assert_eq!(r.target, "/login");
}

#[test]
fn logout_confirms_and_redirects_to_login() {
    let r = logout();
    assert!(r.success);
    assert_eq!(r.target, "/login");
    assert_eq!(r.message, "Successfully logged out.");
}

#[test]
fn token_holders_skip_the_login_page() {
    assert_eq!(login_token(), "/");
}

#[test]
fn dashboard_requires_a_token() {
    assert_eq!(dashboard_no_token(), "/login");
}

#[test]
fn stylesheet_names_the_template_file() {
    assert_eq!(stylesheet(), "templates/style.css");
}

fn values() -> [Option<String>; 6] {
    [
        Some("admin".to_string()),
        Some("SECRET-REDACTED".to_string()),
        Some("192.168.1.1".to_string()),
        Some("root".to_string()),
        Some("SECRET-REDACTED".to_string()),
        Some("known.sqlite3".to_string()),
    ]
}

#[test]
fn fairing_assembles_the_configuration() {
    let [a, b, c, d, e, f] = values();
    let setup = fairing(a, b, c, d, e, f).expect("complete configuration");
    assert_eq!(setup.auth.username, "admin");
    assert_eq!(setup.auth.password, "SECRET-REDACTED");
    assert_eq!(setup.router.host, "192.168.1.1");
    assert_eq!(setup.router.username, "root");
    assert_eq!(setup.router.password, "SECRET-REDACTED");
    assert_eq!(setup.db_file, "known.sqlite3");
}

#[test]
fn fairing_fails_on_any_missing_value() {
    for missing in 0..6 {
        let mut vals = values();
        vals[missing] = None;
        let [a, b, c, d, e, f] = vals;
        assert!(fairing(a, b, c, d, e, f).is_err());
    }
}
