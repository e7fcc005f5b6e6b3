//! What the providers' HTTP responses have in common.

use vstd::prelude::*;

use crate::integrations::IntegrationError;
use crate::integrations::oauth::is_success;
use crate::text::parse_u64;

verus! {

/// How long a connection to a provider may take to be made, in seconds.
pub const CONNECT_TIMEOUT_SECS: u64 = 10;

/// How long a request to a provider may take in all, in seconds.
pub const REQUEST_TIMEOUT_SECS: u64 = 600;

/// What `reqwest::StatusCode` displays as: the code and its canonical reason.
pub uninterp spec fn status_text(status: u16) -> Seq<char>;

/// The `Display` of `reqwest::StatusCode`: the text is a function of the code, named
/// [`status_text`]. The codes are those of three digits.
#[verifier::external_body]
pub(crate) fn status_line(status: u16) -> (r: String)
    requires
        100 <= status <= 999,
    ensures
        r@ == status_text(status),
{
    reqwest::StatusCode::from_u16(status).unwrap().to_string()
}

/// The seconds that a `Retry-After` header asks to wait: a minute where it says nothing that can
/// be read.
pub open spec fn wait_of(header: Option<Seq<char>>) -> u64 {
    match header {
        Some(h) => if crate::text::is_number(h, u64::MAX as nat) {
            crate::text::number(crate::text::unsigned(h)) as u64
        } else {
            60
        },
        None => 60,
    }
}

/// The seconds that a `Retry-After` header asks to wait.
pub fn retry_after(header: Option<&str>) -> (r: u64)
    ensures
        r == wait_of(crate::text::text_of_str(header)),
{
    match header {
        Some(h) => match parse_u64(h) {
            Some(n) => n,
            None => 60,
        },
        None => 60,
    }
}

/// The error for a response that nothing better is known of.
pub fn api_error(status: u16, body: &str) -> (r: IntegrationError)
    requires
        100 <= status <= 999,
    ensures
        r@ == crate::integrations::IntegrationErrorView::Api(status_text(status) + ": "@ + body@),
{
    let mut out = status_line(status);
    out.push_str(": ");
    out.push_str(body);
    IntegrationError::Api(out)
}

/// Whether a deletion went well: by a success.
pub fn deletion_refused(status: u16, body: &str) -> (r: Option<IntegrationError>)
    ensures
        match r {
            None => crate::integrations::oauth::success(status),
            Some(e) => !crate::integrations::oauth::success(status) && e@
                == crate::integrations::IntegrationErrorView::Api(body@),
        },
{
    if is_success(status) {
        None
    } else {
        Some(IntegrationError::Api(body.to_owned()))
    }
}

/// A server that asks to wait a number of seconds is given that time; one that asks for nothing
/// that is a number is given a minute.
pub proof fn law_a_server_is_given_the_time_it_asks_for(n: nat, header: Seq<char>)
    requires
        n <= u64::MAX,
    ensures
        wait_of(Some(crate::text::decimal(n))) == n,
        wait_of(None) == 60,
        (exists|i: int| 1 <= i < header.len() && !('0' <= #[trigger] header[i] <= '9')) ==> wait_of(
            Some(header),
        ) == 60,
        header.len() == 0 ==> wait_of(Some(header)) == 60,
{
    crate::text::law_numbers_read_back(n);
    assert(crate::text::is_number(crate::text::decimal(n), u64::MAX as nat));
    assert('0' <= crate::text::decimal(n)[0]);
    if exists|i: int| 1 <= i < header.len() && !('0' <= #[trigger] header[i] <= '9') {
        let i = choose|i: int| 1 <= i < header.len() && !('0' <= #[trigger] header[i] <= '9');
        let d = crate::text::unsigned(header);
        if header[0] == '+' {
            assert(d[i - 1] == header[i]);
            assert(!crate::text::is_digit(d[i - 1]));
        } else {
            assert(!crate::text::is_digit(d[i]));
        }
    }
}

} // verus!
