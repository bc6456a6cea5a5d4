//! Random requests for the load generators.
use vstd::prelude::*;
use rand::distr::{Alphanumeric, SampleString};
use rand::Rng;
use crate::packet::{Request, RequestModel, RequestType};
use crate::{CAPACITY, SUBSTRING_LEN};

verus! {

/// Generated user names have fewer characters than this.
pub const USERNAME_LEN_BOUND: usize = 10;

/// Whether `c` is an ASCII letter or digit.
pub open spec fn is_alphanumeric(c: char) -> bool {
    let n = c as u32;
    (0x30 <= n <= 0x39) || (0x41 <= n <= 0x5a) || (0x61 <= n <= 0x7a)
}

/// Whether `text` has `len` characters, all ASCII letters or digits.
pub open spec fn is_alphanumeric_text(text: Seq<char>, len: nat) -> bool {
    &&& text.len() == len
    &&& forall|i: int| 0 <= i < text.len() ==> is_alphanumeric(#[trigger] text[i])
}

/// `Rng::random_range` on the thread's generator, over `low..high`. Which
/// value comes is chance; it lies in the range. The crate panics on an
/// empty range, so `low` must be below `high`.
#[verifier::external_body]
fn random_in(low: usize, high: usize) -> (n: usize)
    requires
        low < high,
    ensures
        low <= n < high,
{
    rand::rng().random_range(low..high)
}

/// `Alphanumeric.sample_string` on the thread's generator: `len` characters
/// drawn from the ASCII letters and digits.
#[verifier::external_body]
fn random_alphanumeric(len: usize) -> (text: String)
    ensures
        is_alphanumeric_text(text@, len as nat),
{
    Alphanumeric.sample_string(&mut rand::rng(), len)
}

/// Picks one of `n` connections, each as likely as the other. There is
/// nothing to pick from among none.
pub fn pick_connection(n: usize) -> (picked: Option<usize>)
    ensures
        n == 0 ==> picked is None,
        n > 0 ==> (picked matches Some(i) && i < n),
{
    if n == 0 {
        None
    } else {
        Some(random_in(0, n))
    }
}

impl Request {
    /// Whether `m` is a request that the generator can make: a scan for a
    /// pattern of `SUBSTRING_LEN` letters or digits, a read of a key below
    /// `CAPACITY`, or a write of a short user name to such a key.
    pub open spec fn is_generated(m: RequestModel) -> bool {
        match m {
            RequestModel::BeRead { substring, .. } => is_alphanumeric_text(
                substring,
                SUBSTRING_LEN as nat,
            ),
            RequestModel::LcRead { id, .. } => id < CAPACITY,
            RequestModel::LcWrite { id, username, .. } => id < CAPACITY && username.len()
                < USERNAME_LEN_BOUND && is_alphanumeric_text(username, username.len()),
        }
    }

    /// The request of class `kind` with the given fields; a class takes of
    /// `id` and `text` what it has a field for.
    pub fn from_parts(kind: RequestType, req_id: u64, id: u64, text: String) -> (req: Request)
        ensures
            req@ == match kind {
                RequestType::BeRead => RequestModel::BeRead { req_id, substring: text@ },
                RequestType::LcRead => RequestModel::LcRead { req_id, id },
                RequestType::LcWrite => RequestModel::LcWrite { req_id, id, username: text@ },
            },
    {
        match kind {
            RequestType::BeRead => Request::BeRead { req_id, substring: text },
            RequestType::LcRead => Request::LcRead { req_id, id },
            RequestType::LcWrite => Request::LcWrite { req_id, id, username: text },
        }
    }

    /// A random request of class `kind` that carries `req_id`.
    pub fn random(kind: RequestType, req_id: u64) -> (req: Request)
        ensures
            req@.kind() == kind,
            req@.req_id() == req_id,
            Request::is_generated(req@),
    {
        match kind {
            RequestType::BeRead => {
                let substring: String = random_alphanumeric(SUBSTRING_LEN);
                Request::from_parts(kind, req_id, 0, substring)
            },
            RequestType::LcRead => {
                let id: usize = random_in(0, CAPACITY);
                Request::from_parts(kind, req_id, id as u64, String::new())
            },
            RequestType::LcWrite => {
                let id: usize = random_in(0, CAPACITY);
                let len: usize = random_in(0, USERNAME_LEN_BOUND);
                let username: String = random_alphanumeric(len);
                Request::from_parts(kind, req_id, id as u64, username)
            },
        }
    }
}

} // verus!
