//! Decision logic of the web front end around the pipeline: credential
//! checks, redirect targets, flash messages and configuration assembly.
//! The HTTP plumbing (cookies, routes, file serving) stays outside; these
//! functions decide, and an unverified layer carries the decisions out.
use vstd::prelude::*;
use vstd::string::StringExecFns;

verus! {

/// Credentials the front end itself is guarded by.
#[derive(Debug)]
pub struct Config {
    pub username: String,
    pub password: String,
}

/// A flash message together with the redirect target to send the client to,
/// and whether the session token is to be set (after a successful login) or
/// removed (after a logout).
#[derive(Debug)]
pub struct FlashRedirect {
    pub success: bool,
    pub target: String,
    pub message: String,
}

/// Everything the application needs at startup, assembled from its
/// configuration values.
#[derive(Debug)]
pub struct Setup {
    pub auth: Config,
    pub router: crate::fetch::Config,
    pub db_file: String,
}

fn str_eq(a: &str, b: &str) -> (r: bool)
    ensures
        r == (a@ == b@),
{
    let na = a.unicode_len();
    let nb = b.unicode_len();
    if na != nb {
        return false;
    }
    let mut i: usize = 0;
    while i < na
        invariant
            i <= na,
            na == a@.len(),
            na == b@.len(),
            forall|j: int| 0 <= j < i ==> a@[j] == b@[j],
        decreases na - i,
    {
        if a.get_char(i) != b.get_char(i) {
            return false;
        }
        i += 1;
    }
    proof {
        assert(a@ =~= b@);
    }
    true
}

/// Decides a login attempt: the supplied credentials are checked against
/// the configured ones; on success the client is sent to the dashboard with
/// the session token set, else back to the login page with an error.
pub fn login(username: &str, password: &str, expected_username: &str, expected_password: &str) -> (r:
    FlashRedirect)
    ensures
        r.success == (username@ == expected_username@ && password@ == expected_password@),
        r.success ==> r.target@ == "/"@ && r.message@ == "Successfully logged in."@,
        !r.success ==> r.target@ == "/login"@ && r.message@ == "Invalid username/password."@,
{
    if str_eq(username, expected_username) && str_eq(password, expected_password) {
        FlashRedirect {
            success: true,
            target: String::from_str("/"),
            message: String::from_str("Successfully logged in."),
        }
    } else {
        FlashRedirect {
            success: false,
            target: String::from_str("/login"),
            message: String::from_str("Invalid username/password."),
        }
    }
}

/// Decides a logout: the session token is removed and the client is sent to
/// the login page with a confirmation.
pub fn logout() -> (r: FlashRedirect)
    ensures
        r.success,
        r.target@ == "/login"@,
        r.message@ == "Successfully logged out."@,
{
    FlashRedirect {
        success: true,
        target: String::from_str("/login"),
        message: String::from_str("Successfully logged out."),
    }
}

/// Where a client that visits the login page with a valid session token is
/// sent: straight to the dashboard.
pub fn login_token() -> (r: String)
    ensures
        r@ == "/"@,
{
    String::from_str("/")
}

/// Where a client that requests the dashboard without a session token is
/// sent: the login page.
pub fn dashboard_no_token() -> (r: String)
    ensures
        r@ == "/login"@,
{
    String::from_str("/login")
}

/// The file served as the stylesheet.
pub fn stylesheet() -> (r: String)
    ensures
        r@ == "templates/style.css"@,
{
    String::from_str("templates/style.css")
}

/// Assembles the application's startup configuration from the values read
/// for its six configuration keys, in the order they are consulted; the
/// first missing value aborts the startup.
pub fn fairing(
    token_username: Option<String>,
    token_password: Option<String>,
    router_host: Option<String>,
    router_username: Option<String>,
    router_password: Option<String>,
    db_file: Option<String>,
) -> (r: Result<Setup, ()>)
    ensures
        r is Ok <==> (token_username is Some && token_password is Some && router_host is Some
            && router_username is Some && router_password is Some && db_file is Some),
        r matches Ok(setup) ==> {
            &&& Some(setup.auth.username) == token_username
            &&& Some(setup.auth.password) == token_password
            &&& Some(setup.router.host) == router_host
            &&& Some(setup.router.username) == router_username
            &&& Some(setup.router.password) == router_password
            &&& Some(setup.db_file) == db_file
        },
{
    let token_username = match token_username {
        Some(v) => v,
        None => {
            return Err(());
        },
    };
    let token_password = match token_password {
        Some(v) => v,
        None => {
            return Err(());
        },
    };
    let router_host = match router_host {
        Some(v) => v,
        None => {
            return Err(());
        },
    };
    let router_username = match router_username {
        Some(v) => v,
        None => {
            return Err(());
        },
    };
    let router_password = match router_password {
        Some(v) => v,
        None => {
            return Err(());
        },
    };
    let db_file = match db_file {
        Some(v) => v,
        None => {
            return Err(());
        },
    };
    Ok(
        Setup {
            auth: Config { username: token_username, password: token_password },
            router: crate::fetch::Config {
                host: router_host,
                username: router_username,
                password: router_password,
            },
            db_file,
        },
    )
}

} // verus!
