//! Identifier extraction: scans raw status-page markup for table rows that
//! follow the device-row template and collects the address-like identifier
//! of each such row, in order of appearance.
//!
//! A device row is the fixed markup shape
//! `<tr><td ...>` index digits `</td><td ...>` identifier `</td></tr>`,
//! where the identifier is six uppercase hexadecimal octets separated by
//! colons (`XX:XX:XX:XX:XX:XX`). Rows that do not match the template are
//! ignored; a page with no matching rows yields an empty result.
use vstd::prelude::*;
use vstd::string::StrSliceExecFns;

verus! {

/// Markup that opens a device row: the row tag and the index cell's opening tag.
pub open spec fn row_open() -> Seq<char> {
    "<tr><td align=\"center\" class=\"tabdata\">"@
}

/// Markup between the index cell and the identifier cell.
pub open spec fn row_mid() -> Seq<char> {
    "</td><td align=\"center\" class=\"tabdata\">"@
}

/// Markup that closes a device row.
pub open spec fn row_close() -> Seq<char> {
    "</td></tr>"@
}

fn row_open_text() -> (s: &'static str)
    ensures
        s@ == row_open(),
{
    "<tr><td align=\"center\" class=\"tabdata\">"
}

fn row_mid_text() -> (s: &'static str)
    ensures
        s@ == row_mid(),
{
    "</td><td align=\"center\" class=\"tabdata\">"
}

fn row_close_text() -> (s: &'static str)
    ensures
        s@ == row_close(),
{
    "</td></tr>"
}

/// The literal `lit` occurs in `s` starting at position `i`.
pub open spec fn lit_at(s: Seq<char>, i: int, lit: Seq<char>) -> bool {
    &&& 0 <= i
    &&& i + lit.len() <= s.len()
    &&& forall|k: int| 0 <= k < lit.len() ==> s[i + k] == lit[k]
}

/// A decimal digit.
pub open spec fn is_digit(c: char) -> bool {
    48 <= c as u32 <= 57
}

/// An uppercase hexadecimal digit.
pub open spec fn is_hex_char(c: char) -> bool {
    is_digit(c) || (65 <= c as u32 <= 70)
}

/// A canonical device identifier: six uppercase hexadecimal octets
/// separated by colons, seventeen characters in all.
pub open spec fn is_mac_seq(m: Seq<char>) -> bool {
    &&& m.len() == 17
    &&& forall|k: int|
        0 <= k < 17 ==> if k % 3 == 2 {
            m[k] == ':'
        } else {
            is_hex_char(#[trigger] m[k])
        }
}

/// A canonical device identifier occurs in `s` at position `i`.
pub open spec fn mac_at(s: Seq<char>, i: int) -> bool {
    &&& 0 <= i
    &&& i + 17 <= s.len()
    &&& is_mac_seq(s.subrange(i, i + 17))
}

/// Length of the run of decimal digits in `s` starting at `i`.
pub open spec fn digit_run(s: Seq<char>, i: int) -> nat
    decreases s.len() - i,
{
    if i < 0 || i >= s.len() || !is_digit(s[i]) {
        0
    } else {
        1 + digit_run(s, i + 1)
    }
}

/// Number of digits in the index cell of a row starting at `i`.
pub open spec fn row_digits(s: Seq<char>, i: int) -> nat {
    digit_run(s, i + row_open().len())
}

/// Position of the identifier inside a row starting at `i`.
pub open spec fn mac_start(s: Seq<char>, i: int) -> int {
    i + row_open().len() + row_digits(s, i) + row_mid().len()
}

/// A complete device row matches the template at position `i`.
pub open spec fn row_at(s: Seq<char>, i: int) -> bool {
    &&& lit_at(s, i, row_open())
    &&& row_digits(s, i) >= 1
    &&& lit_at(s, i + row_open().len() + row_digits(s, i), row_mid())
    &&& mac_at(s, mac_start(s, i))
    &&& lit_at(s, mac_start(s, i) + 17, row_close())
}

/// Total length of the row matching at position `i`.
pub open spec fn row_len(s: Seq<char>, i: int) -> int {
    row_open().len() + row_digits(s, i) + row_mid().len() + 17 + row_close().len() as int
}

/// The identifier captured by the row matching at position `i`,
/// exactly as it stands in the source text.
pub open spec fn row_mac(s: Seq<char>, i: int) -> Seq<char> {
    s.subrange(mac_start(s, i), mac_start(s, i) + 17)
}

/// Identifiers of all rows found scanning `s` left to right from `i`,
/// skipping past each complete match.
pub open spec fn extract_from(s: Seq<char>, i: int) -> Seq<Seq<char>>
    decreases s.len() - i,
{
    if i < 0 || i >= s.len() {
        Seq::empty()
    } else if row_at(s, i) {
        seq![row_mac(s, i)] + extract_from(s, i + row_len(s, i))
    } else {
        extract_from(s, i + 1)
    }
}

/// The ordered sequence of identifiers extracted from the page text `s`.
pub open spec fn extracted(s: Seq<char>) -> Seq<Seq<char>> {
    extract_from(s, 0)
}

fn digit_check(c: char) -> (r: bool)
    ensures
        r == is_digit(c),
{
    let u = c as u32;
    48 <= u && u <= 57
}

fn hex_check(c: char) -> (r: bool)
    ensures
        r == is_hex_char(c),
{
    let u = c as u32;
    (48 <= u && u <= 57) || (65 <= u && u <= 70)
}

fn lit_match(chars: &Vec<char>, i: usize, lit: &str) -> (r: bool)
    ensures
        r == lit_at(chars@, i as int, lit@),
{
    let n = lit.unicode_len();
    let len = chars.len();
    if i > len || n > len - i {
        return false;
    }
    let mut k: usize = 0;
    while k < n
        invariant
            k <= n,
            len == chars@.len(),
            i + n <= len,
            n == lit@.len(),
            forall|j: int| 0 <= j < k ==> chars@[i + j] == lit@[j],
        decreases n - k,
    {
        if chars[i + k] != lit.get_char(k) {
            return false;
        }
        k += 1;
    }
    true
}

proof fn lemma_digit_run_value(s: Seq<char>, i: int, d: int)
    requires
        0 <= i,
        0 <= d,
        i + d <= s.len(),
        forall|j: int| i <= j < i + d ==> is_digit(s[j]),
        i + d == s.len() || !is_digit(s[i + d]),
    ensures
        digit_run(s, i) == d,
    decreases d,
{
    if d > 0 {
        lemma_digit_run_value(s, i + 1, d - 1);
    }
}

fn count_digits(chars: &Vec<char>, i: usize) -> (d: usize)
    requires
        i <= chars@.len(),
    ensures
        d == digit_run(chars@, i as int),
        i + d <= chars@.len(),
{
    let len = chars.len();
    let mut d: usize = 0;
    loop
        invariant
            len == chars@.len(),
            i + d <= len,
            forall|j: int| i <= j < i + d ==> is_digit(chars@[j]),
        decreases chars@.len() - i - d,
    {
        if i + d == len || !digit_check(chars[i + d]) {
            proof {
                lemma_digit_run_value(chars@, i as int, d as int);
            }
            return d;
        }
        d += 1;
    }
}

fn mac_match(chars: &Vec<char>, i: usize) -> (r: bool)
    ensures
        r == mac_at(chars@, i as int),
{
    let len = chars.len();
    if i > len || len - i < 17 {
        return false;
    }
    let mut k: usize = 0;
    while k < 17
        invariant
            k <= 17,
            len == chars@.len(),
            i + 17 <= len,
            forall|j: int|
                0 <= j < k ==> if j % 3 == 2 {
                    chars@[i + j] == ':'
                } else {
                    is_hex_char(#[trigger] chars@[i + j])
                },
        decreases 17 - k,
    {
        let c = chars[i + k];
        if k % 3 == 2 {
            if c != ':' {
                proof {
                    assert(chars@.subrange(i as int, i + 17)[k as int] == chars@[i + k]);
                }
                return false;
            }
        } else {
            if !hex_check(c) {
                proof {
                    assert(chars@.subrange(i as int, i + 17)[k as int] == chars@[i + k]);
                }
                return false;
            }
        }
        k += 1;
    }
    proof {
        assert forall|k: int| 0 <= k < 17 implies if k % 3 == 2 {
            chars@.subrange(i as int, i + 17)[k] == ':'
        } else {
            is_hex_char(#[trigger] chars@.subrange(i as int, i + 17)[k])
        } by {
            assert(chars@.subrange(i as int, i + 17)[k] == chars@[i + k]);
        }
    }
    true
}

fn try_row(chars: &Vec<char>, i: usize) -> (r: Option<(usize, usize)>)
    ensures
        match r {
            Some(p) => {
                &&& row_at(chars@, i as int)
                &&& p.0 == mac_start(chars@, i as int)
                &&& p.1 == row_len(chars@, i as int)
                &&& i + p.1 <= chars@.len()
            },
            None => !row_at(chars@, i as int),
        },
{
    let len = chars.len();
    let open_t = row_open_text();
    if !lit_match(chars, i, open_t) {
        return None;
    }
    proof {
        assert(i + open_t@.len() <= len);
    }
    let pos_digits = i + open_t.unicode_len();
    let d = count_digits(chars, pos_digits);
    if d == 0 {
        return None;
    }
    let pos_mid = pos_digits + d;
    let mid_t = row_mid_text();
    if !lit_match(chars, pos_mid, mid_t) {
        return None;
    }
    let pos_mac = pos_mid + mid_t.unicode_len();
    if !mac_match(chars, pos_mac) {
        return None;
    }
    let close_t = row_close_text();
    if !lit_match(chars, pos_mac + 17, close_t) {
        return None;
    }
    Some((pos_mac, pos_mac + 17 + close_t.unicode_len() - i))
}

fn to_char_vec(body: &str) -> (r: Vec<char>)
    ensures
        r@ == body@,
{
    let n = body.unicode_len();
    let mut r: Vec<char> = Vec::new();
    let mut i: usize = 0;
    while i < n
        invariant
            i <= n,
            n == body@.len(),
            r@ == body@.subrange(0, i as int),
        decreases n - i,
    {
        r.push(body.get_char(i));
        proof {
            assert(r@ =~= body@.subrange(0, i + 1));
        }
        i += 1;
    }
    proof {
        assert(body@.subrange(0, n as int) =~= body@);
    }
    r
}

/// Extracts the ordered sequence of device identifiers from raw page text.
///
/// Each element is the identifier of one row matching the device-row
/// template, exactly as captured from the source; rows that do not match
/// are skipped and an input with no matching rows gives an empty vector.
pub fn extract_macs(body: &str) -> (r: Vec<String>)
    ensures
        r.deep_view() == extracted(body@),
{
    let chars = to_char_vec(body);
    let n = chars.len();
    let mut out: Vec<String> = Vec::new();
    let mut i: usize = 0;
    while i < n
        invariant
            n == body@.len(),
            chars@ == body@,
            i <= n,
            out.deep_view() + extract_from(body@, i as int) =~= extracted(body@),
        decreases n - i,
    {
        let ghost prev = out.deep_view();
        match try_row(&chars, i) {
            Some((ms, rl)) => {
                proof {
                    assert(ms + 17 <= body@.len());
                }
                let mac_text = body.substring_char(ms, ms + 17);
                let mac = mac_text.to_owned();
                out.push(mac);
                proof {
                    assert(mac@ == row_mac(body@, i as int));
                    assert(out.deep_view() =~= prev.push(mac@));
                    assert(extract_from(body@, i as int) =~= seq![row_mac(body@, i as int)]
                        + extract_from(body@, i + row_len(body@, i as int)));
                    assert(out.deep_view() + extract_from(body@, i + rl) =~= prev + extract_from(
                        body@,
                        i as int,
                    ));
                }
                i += rl;
            },
            None => {
                proof {
                    assert(extract_from(body@, i as int) == extract_from(body@, i + 1));
                }
                i += 1;
            },
        }
    }
    out
}

/// Law: on text containing no row that matches the template, extraction
/// returns the empty sequence.
pub proof fn lemma_no_rows_empty(s: Seq<char>)
    requires
        forall|i: int| 0 <= i < s.len() ==> !row_at(s, i),
    ensures
        extracted(s) == Seq::<Seq<char>>::empty(),
{
    lemma_no_rows_from(s, 0);
}

proof fn lemma_no_rows_from(s: Seq<char>, i: int)
    requires
        0 <= i,
        forall|j: int| i <= j < s.len() ==> !row_at(s, j),
    ensures
        extract_from(s, i) == Seq::<Seq<char>>::empty(),
    decreases s.len() - i,
{
    if i < s.len() {
        lemma_no_rows_from(s, i + 1);
    }
}

proof fn lemma_extract_exact_from(s: Seq<char>, start: int, k: int)
    requires
        0 <= start,
        0 <= k < extract_from(s, start).len(),
    ensures
        exists|i: int|
            start <= i < s.len() && row_at(s, i) && extract_from(s, start)[k] == row_mac(s, i),
    decreases s.len() - start,
{
    if start < s.len() {
        if row_at(s, start) {
            if k == 0 {
                assert(extract_from(s, start)[0] == row_mac(s, start));
            } else {
                lemma_extract_exact_from(s, start + row_len(s, start), k - 1);
                let i0 = choose|i: int|
                    start + row_len(s, start) <= i < s.len() && row_at(s, i) && extract_from(
                        s,
                        start + row_len(s, start),
                    )[k - 1] == row_mac(s, i);
                assert(extract_from(s, start)[k] == row_mac(s, i0));
            }
        } else {
            lemma_extract_exact_from(s, start + 1, k);
        }
    }
}

/// Law: every extracted identifier is exactly the address text captured
/// from some matching row of the source, with no alteration.
pub proof fn lemma_extract_exact(s: Seq<char>, k: int)
    requires
        0 <= k < extracted(s).len(),
    ensures
        exists|i: int| 0 <= i < s.len() && row_at(s, i) && extracted(s)[k] == row_mac(s, i),
{
    lemma_extract_exact_from(s, 0, k);
}

/// Law: every extracted identifier is well-formed per the canonical format.
pub proof fn lemma_extract_wellformed(s: Seq<char>, k: int)
    requires
        0 <= k < extracted(s).len(),
    ensures
        is_mac_seq(extracted(s)[k]),
{
    lemma_extract_exact(s, k);
    let i = choose|i: int| 0 <= i < s.len() && row_at(s, i) && extracted(s)[k] == row_mac(s, i);
    assert(is_mac_seq(s.subrange(mac_start(s, i), mac_start(s, i) + 17)));
}

proof fn lemma_row_literals()
    ensures
        row_open().len() == 39,
        row_mid().len() == 40,
        row_close().len() == 10,
        row_open()[0] == '<' && row_open()[1] == 't' && row_open()[2] == 'r',
        row_open()[5] == 't' && row_open()[6] == 'd',
        row_mid()[1] == '/' && row_mid()[6] == 't' && row_mid()[7] == 'd',
        row_close()[1] == '/' && row_close()[6] == '/',
        forall|d: int| 1 <= d < 39 && (#[trigger] row_open()[d]) == '<' ==> d == 4,
        forall|d: int| 0 <= d < 40 && (#[trigger] row_mid()[d]) == '<' ==> d == 0 || d == 5,
        forall|d: int| 0 <= d < 10 && (#[trigger] row_close()[d]) == '<' ==> d == 0 || d == 5,
{
    reveal_strlit("<tr><td align=\"center\" class=\"tabdata\">");
    reveal_strlit("</td><td align=\"center\" class=\"tabdata\">");
    reveal_strlit("</td></tr>");
}

proof fn lemma_digit_run_digits(s: Seq<char>, q: int, j: int)
    requires
        0 <= q <= j,
        j < q + digit_run(s, q),
    ensures
        j < s.len(),
        is_digit(s[j]),
    decreases j - q,
{
    if j > q {
        lemma_digit_run_digits(s, q + 1, j);
    }
}

proof fn lemma_rows_disjoint(s: Seq<char>, p: int, i: int)
    requires
        0 <= p < i,
        row_at(s, p),
        row_at(s, i),
    ensures
        i >= p + row_len(s, p),
{
    if i < p + row_len(s, p) {
        lemma_row_literals();
        let o = row_open().len() as int;
        let g = row_digits(s, p) as int;
        let m = row_mid().len() as int;
        let d = i - p;
        assert(s[i] == row_open()[0]);
        assert(s[i + 1] == row_open()[1]);
        assert(s[i + 2] == row_open()[2]);
        if d < o {
            assert(s[p + d] == row_open()[d]);
            assert(row_open()[d] == '<');
            assert(d == 4);
            assert(s[p + 5] == row_open()[5]);
            assert(s[p + 6] == row_open()[6]);
            assert(false);
        } else if d < o + g {
            lemma_digit_run_digits(s, p + o, i);
            assert(false);
        } else if d < o + g + m {
            let k = d - (o + g);
            assert(s[p + o + g + k] == row_mid()[k]);
            assert(row_mid()[k] == '<');
            if k == 0 {
                assert(s[i + 1] == row_mid()[1]);
            } else {
                assert(k == 5);
                assert(s[i + 2] == row_mid()[7]);
            }
            assert(false);
        } else if d < o + g + m + 17 {
            let ms = mac_start(s, p);
            let k = d - (o + g + m);
            assert(is_mac_seq(s.subrange(ms, ms + 17)));
            assert(s.subrange(ms, ms + 17)[k] == s[ms + k]);
            assert(false);
        } else {
            let k = d - (o + g + m + 17);
            assert(s[mac_start(s, p) + 17 + k] == row_close()[k]);
            assert(row_close()[k] == '<');
            if k == 0 {
                assert(s[i + 1] == row_close()[1]);
            } else {
                assert(k == 5);
                assert(s[i + 1] == row_close()[6]);
            }
            assert(false);
        }
    }
}

proof fn lemma_extract_complete_from(s: Seq<char>, p: int, i: int)
    requires
        0 <= p <= i,
        row_at(s, i),
    ensures
        extract_from(s, p).contains(row_mac(s, i)),
    decreases i - p,
{
    lemma_row_literals();
    assert(i < s.len());
    if p == i {
        assert(extract_from(s, p) == seq![row_mac(s, i)] + extract_from(s, i + row_len(s, i)));
        assert(extract_from(s, p)[0] == row_mac(s, i));
        assert(extract_from(s, p).contains(row_mac(s, i)));
    } else if row_at(s, p) {
        lemma_rows_disjoint(s, p, i);
        lemma_extract_complete_from(s, p + row_len(s, p), i);
        let rest = extract_from(s, p + row_len(s, p));
        let k = choose|k: int| 0 <= k < rest.len() && rest[k] == row_mac(s, i);
        assert(extract_from(s, p) == seq![row_mac(s, p)] + rest);
        assert((seq![row_mac(s, p)] + rest)[k + 1] == rest[k]);
        assert(extract_from(s, p).contains(row_mac(s, i)));
    } else {
        lemma_extract_complete_from(s, p + 1, i);
        assert(extract_from(s, p) == extract_from(s, p + 1));
    }
}

/// Law: every row matching the template contributes its captured address to
/// the result: extraction drops nothing the page shows. Together with
/// [`lemma_extract_exact`], the result holds exactly the captures of the
/// matching rows.
pub proof fn lemma_extract_complete(s: Seq<char>, i: int)
    requires
        0 <= i,
        row_at(s, i),
    ensures
        extracted(s).contains(row_mac(s, i)),
{
    lemma_extract_complete_from(s, 0, i);
}

} // verus!
