use netdash::extract::extract_macs;
use netdash::fetch::{request_url, retry_step, run_retry, Config, FetchError, FetchOutcome, Response, RetryStep};
use netdash::reconcile::reconcile;
use netdash::store::{annotate_and_sort, Db, Item, StoreError};

fn page(rows: &[(&str, &str)]) -> String {
    let mut body = String::from("<html><body><table>");
    for (index, mac) in rows {
        body.push_str(&format!(
            "<tr><td align=\"center\" class=\"tabdata\">{}</td><td align=\"center\" class=\"tabdata\">{}</td></tr>",
            index, mac
        ));
    }
    body.push_str("</table></body></html>");
    body
}

fn response(status: u16, body: &str) -> FetchOutcome {
    FetchOutcome::Response(Response {
        status,
        headers: vec![("server".to_string(), "router".to_string())],
        body: body.to_string(),
    })
}

#[test]
fn extract_no_rows_is_empty() {
    assert_eq!(extract_macs(""), Vec::<String>::new());
    assert_eq!(extract_macs("<html><body>nothing here</body></html>"), Vec::<String>::new());
    // near misses: lowercase octets, wrong cell class, missing index digits
    let lower = page(&[("1", "aa:bb:cc:dd:ee:01")]);
    assert_eq!(extract_macs(&lower), Vec::<String>::new());
    let wrong_class = "<tr><td align=\"center\" class=\"other\">1</td><td align=\"center\" class=\"other\">AA:BB:CC:DD:EE:01</td></tr>";
    assert_eq!(extract_macs(wrong_class), Vec::<String>::new());
    let no_index = "<tr><td align=\"center\" class=\"tabdata\"></td><td align=\"center\" class=\"tabdata\">AA:BB:CC:DD:EE:01</td></tr>";
    assert_eq!(extract_macs(no_index), Vec::<String>::new());
}

#[test]
fn extract_captures_addresses_exactly() {
    let body = page(&[("1", "AA:BB:CC:DD:EE:01"), ("23", "00:11:22:33:44:55")]);
    assert_eq!(
        extract_macs(&body),
        vec!["AA:BB:CC:DD:EE:01".to_string(), "00:11:22:33:44:55".to_string()]
    );
}

#[test]
fn extract_skips_malformed_rows() {
    let mut body = page(&[("1", "AA:BB:CC:DD:EE:01")]);
    body.push_str("<tr><td align=\"center\" class=\"tabdata\">2</td><td>broken</td></tr>");
    body.push_str(&page(&[("3", "FF:EE:DD:CC:BB:AA")]));
    assert_eq!(
        extract_macs(&body),
        vec!["AA:BB:CC:DD:EE:01".to_string(), "FF:EE:DD:CC:BB:AA".to_string()]
    );
}

#[test]
fn retry_succeeds_on_fourth_attempt() {
    let mut outcomes = vec![
        response(500, "a"),
        response(503, "b"),
        response(401, "c"),
        response(200, "the page"),
    ];
    let (result, attempts) = run_retry(&mut outcomes);
    assert_eq!(attempts, 4);
    assert_eq!(result, Ok("the page".to_string()));
}

#[test]
fn retry_gives_up_after_four_attempts() {
    // a fifth, successful outcome is available but must never be consumed
    let mut outcomes = vec![
        response(500, "a"),
        response(500, "b"),
        response(500, "c"),
        response(502, "d"),
        response(200, "too late"),
    ];
    let (result, attempts) = run_retry(&mut outcomes);
    assert_eq!(attempts, 4);
    match result {
        Err(FetchError::NotSuccess(status, headers)) => {
            assert_eq!(status, 502);
            assert_eq!(headers, vec![("server".to_string(), "router".to_string())]);
        }
        other => panic!("expected NotSuccess, got {:?}", other),
    }
    // the fifth outcome is still in the queue
    assert_eq!(outcomes.len(), 1);
}

#[test]
fn retry_stops_at_first_success() {
    let mut outcomes = vec![response(204, "ok"), response(500, "never read")];
    let (result, attempts) = run_retry(&mut outcomes);
    assert_eq!(attempts, 1);
    assert_eq!(result, Ok("ok".to_string()));
}

#[test]
fn transport_failure_aborts_immediately() {
    match retry_step(0, FetchOutcome::Transport) {
        RetryStep::Done(result) => assert_eq!(result, Err(FetchError::TransportError)),
        RetryStep::Retry => panic!("a transport failure must not be retried"),
    }
    let mut outcomes = vec![response(500, "a"), FetchOutcome::Transport, response(200, "x")];
    let (result, attempts) = run_retry(&mut outcomes);
    assert_eq!(attempts, 2);
    assert_eq!(result, Err(FetchError::TransportError));
}

#[test]
fn request_url_is_built_from_host() {
    let config = Config {
        host: "192.168.1.1".to_string(),
        username: "admin".to_string(),
        password: "SECRET-REDACTED".to_string(),
    };
    assert_eq!(request_url(&config), "http://192.168.1.1/status/status_deviceinfo.htm");
}

#[test]
fn empty_lookup_issues_no_query() {
    // no `known` table exists in a fresh in-memory database, so any query
    // the store issued would fail: the empty result proves none was issued
    let db = Db::new(":memory:").expect("open database");
    let result = db.query(&[]);
    assert_eq!(result, Ok(Vec::new()));
}

#[test]
fn store_failure_is_reported() {
    // a non-empty lookup against a database without the `known` table
    let db = Db::new(":memory:").expect("open database");
    let result = db.query(&["AA:BB:CC:DD:EE:01".to_string()]);
    assert_eq!(result, Err(StoreError));
}

fn item(mac: &str, owner: Option<&str>) -> Item {
    Item { mac: mac.to_string(), owner: owner.map(|o| o.to_string()) }
}

#[test]
fn merge_orders_absent_owner_first() {
    let ids = vec!["AA:BB:CC:DD:EE:01".to_string(), "AA:BB:CC:DD:EE:02".to_string()];
    let rows = vec![item("AA:BB:CC:DD:EE:01", Some("Alice"))];
    let merged = annotate_and_sort(&ids, &rows);
    assert_eq!(
        merged,
        vec![item("AA:BB:CC:DD:EE:02", None), item("AA:BB:CC:DD:EE:01", Some("Alice"))]
    );
}

#[test]
fn merge_orders_owners_then_identifiers() {
    let ids = vec![
        "00:00:00:00:00:03".to_string(),
        "00:00:00:00:00:02".to_string(),
        "00:00:00:00:00:01".to_string(),
        "00:00:00:00:00:04".to_string(),
    ];
    let rows = vec![
        item("00:00:00:00:00:02", Some("Bob")),
        item("00:00:00:00:00:01", Some("Alice")),
        item("00:00:00:00:00:04", Some("Alice")),
    ];
    let merged = annotate_and_sort(&ids, &rows);
    assert_eq!(
        merged,
        vec![
            item("00:00:00:00:00:03", None),
            item("00:00:00:00:00:01", Some("Alice")),
            item("00:00:00:00:00:04", Some("Alice")),
            item("00:00:00:00:00:02", Some("Bob")),
        ]
    );
}

fn fixture_db(path: &str) -> Db {
    let conn = rusqlite::Connection::open(path).expect("fixture database");
    conn.execute("CREATE TABLE IF NOT EXISTS known (mac TEXT PRIMARY KEY, owner TEXT)", [])
        .expect("create table");
    conn.execute("DELETE FROM known", []).expect("clear table");
    conn.execute(
        "INSERT INTO known (mac, owner) VALUES ('AA:BB:CC:DD:EE:01', 'Alice')",
        [],
    )
    .expect("insert row");
    drop(conn);
    Db::new(path).expect("open database")
}

#[test]
fn query_annotates_and_orders_from_the_table() {
    let db = fixture_db("/tmp/netdash_fixture_query.sqlite3");
    let ids = vec!["AA:BB:CC:DD:EE:01".to_string(), "AA:BB:CC:DD:EE:02".to_string()];
    let result = db.query(&ids).expect("lookup");
    assert_eq!(
        result,
        vec![item("AA:BB:CC:DD:EE:02", None), item("AA:BB:CC:DD:EE:01", Some("Alice"))]
    );
}

#[test]
fn reconcile_degrades_to_empty_on_fetch_failure() {
    // no table exists, so a store lookup would fail: the empty result shows
    // the failed fetch short-circuits the pipeline without an error
    let db = Db::new(":memory:").expect("open database");
    let result = reconcile(Err(FetchError::TransportError), &db);
    assert_eq!(result, Ok(Vec::new()));
    let not_success = Err(FetchError::NotSuccess(500, Vec::new()));
    assert_eq!(reconcile(not_success, &db), Ok(Vec::new()));
}

#[test]
fn reconcile_merges_page_and_store() {
    let db = fixture_db("/tmp/netdash_fixture_reconcile.sqlite3");
    let body = page(&[("1", "AA:BB:CC:DD:EE:01"), ("2", "AA:BB:CC:DD:EE:02")]);
    let result = reconcile(Ok(body), &db).expect("reconcile");
    assert_eq!(
        result,
        vec![item("AA:BB:CC:DD:EE:02", None), item("AA:BB:CC:DD:EE:01", Some("Alice"))]
    );
}

#[test]
fn reconcile_twice_gives_identical_results() {
    let db = fixture_db("/tmp/netdash_fixture_idempotent.sqlite3");
    let body = page(&[("1", "AA:BB:CC:DD:EE:01"), ("2", "AA:BB:CC:DD:EE:02")]);
    let first = reconcile(Ok(body.clone()), &db).expect("first run");
    let second = reconcile(Ok(body), &db).expect("second run");
    assert_eq!(first, second);
}

#[test]
fn run_fetches_and_extracts() {
    let body = page(&[("1", "AA:BB:CC:DD:EE:01")]);
    let mut outcomes = vec![response(500, "oops"), response(200, &body), response(200, "never")];
    let ids = netdash::fetch::run(&mut outcomes).expect("discovery");
    assert_eq!(ids, vec!["AA:BB:CC:DD:EE:01".to_string()]);

    let mut failing = vec![
        FetchOutcome::Transport,
        response(200, &body),
        response(200, &body),
        response(200, &body),
    ];
    assert_eq!(netdash::fetch::run(&mut failing), Err(FetchError::TransportError));
}
