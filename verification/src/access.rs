//! Who may use the gateway, and how much at a time.
use vstd::prelude::*;
use vstd::string::StringExecFns;
use vstd::utf8::encode_utf8;

use crate::http::{text_answer, text_reply, Reply};
use crate::text::{dec, dec_string, same_text};

verus! {

/// What the administration of the gateway asks of a request, and how often requests were
/// turned away.
#[derive(Debug)]
pub struct AdminAuth {
    /// The whole header that is expected; none where no token is configured.
    pub expected: Option<String>,
    /// Whether requests pass without a token where none is configured.
    pub unauthenticated_allowed: bool,
    pub missing_counter: u64,
    pub bad_counter: u64,
    pub disabled_counter: u64,
}

/// What becomes of a request.
#[derive(Debug, Clone, Copy, PartialEq, Eq, Structural)]
pub enum AdminVerdict {
    Allowed,
    Missing,
    Bad,
    Disabled,
}

/// What becomes of a request: with a token configured the header must be there and fit;
/// without one nothing passes, unless that is allowed.
pub open spec fn admin_verdict(
    expected: Option<Seq<char>>,
    unauthenticated_allowed: bool,
    header: Seq<char>,
) -> AdminVerdict {
    match expected {
        Some(e) => if header.len() == 0 {
            AdminVerdict::Missing
        } else if header == e {
            AdminVerdict::Allowed
        } else {
            AdminVerdict::Bad
        },
        None => if unauthenticated_allowed {
            AdminVerdict::Allowed
        } else {
            AdminVerdict::Disabled
        },
    }
}

/// Whether two runs of bytes are the same, without stopping at the first difference.
pub fn ct_eq(a: &[u8], b: &[u8]) -> (r: bool)
    ensures
        r == (a@ == b@),
{
    if a.len() != b.len() {
        return false;
    }
    let mut acc: u8 = 0;
    let mut i: usize = 0;
    while i < a.len()
        invariant
            0 <= i <= a@.len(),
            a@.len() == b@.len(),
            acc == 0 <==> forall|j: int| 0 <= j < i ==> a@[j] == b@[j],
        decreases a@.len() - i,
    {
        let x: u8 = a[i];
        let y: u8 = b[i];
        let next: u8 = acc | (x ^ y);
        proof {
            assert(next == 0 <==> (acc == 0 && x == y)) by (bit_vector)
                requires
                    next == acc | (x ^ y),
            ;
        }
        acc = next;
        i += 1;
    }
    proof {
        if acc == 0 {
            assert(a@ =~= b@);
        }
    }
    acc == 0
}

/// A counter that starts over behind its greatest value.
pub open spec fn bumped(n: u64) -> u64 {
    if n == u64::MAX {
        0
    } else {
        (n + 1) as u64
    }
}

fn bump(n: u64) -> (r: u64)
    ensures
        r == bumped(n),
{
    if n == u64::MAX {
        0
    } else {
        n + 1
    }
}

impl AdminAuth {
    /// The settings that two variables give: the token, where it is not empty, and whether
    /// requests pass without one.
    pub fn from_env(token: Option<&str>, unauthenticated: Option<&str>) -> (r: AdminAuth)
        ensures
            match token {
                Some(t) => if t@.len() > 0 {
                    r.expected matches Some(e) && e@ == "Bearer "@ + t@
                } else {
                    r.expected is None
                },
                None => r.expected is None,
            },
            r.unauthenticated_allowed == (unauthenticated matches Some(u) && u@ == "1"@),
            r.missing_counter == 0,
            r.bad_counter == 0,
            r.disabled_counter == 0,
    {
        let expected: Option<String> = match token {
            Some(t) => if t.is_empty() {
                None
            } else {
                Some(String::from_str("Bearer ").concat(t))
            },
            None => None,
        };
        let unauthenticated_allowed: bool = match unauthenticated {
            Some(u) => same_text(u, "1"),
            None => false,
        };
        AdminAuth {
            expected,
            unauthenticated_allowed,
            missing_counter: 0,
            bad_counter: 0,
            disabled_counter: 0,
        }
    }

    /// The reply that turns a request away, or nothing where it may pass. `header` is the
    /// `Authorization` header; a header that is not there, or cannot be read as text, is
    /// empty.
    pub fn require_admin_token(&mut self, header: &str) -> (r: Option<Reply>)
        ensures
            final(self).expected == old(self).expected,
            final(self).unauthenticated_allowed == old(self).unauthenticated_allowed,
            ({
                let v = admin_verdict(
                    crate::form::opt_text(old(self).expected),
                    old(self).unauthenticated_allowed,
                    header@,
                );
                &&& match v {
                    AdminVerdict::Allowed => r is None,
                    AdminVerdict::Missing => r matches Some(p) && p@ == text_answer(
                        401,
                        "text/plain; charset=utf-8"@,
                        "admin auth required (missing Authorization header)"@,
                    ),
                    AdminVerdict::Bad => r matches Some(p) && p@ == text_answer(
                        401,
                        "text/plain; charset=utf-8"@,
                        "admin auth failed (bad or expired token)"@,
                    ),
                    AdminVerdict::Disabled => r matches Some(p) && p@ == text_answer(
                        403,
                        "text/plain; charset=utf-8"@,
                        "admin surface disabled — set HOLOFS_ADMIN_TOKEN to enable"@,
                    ),
                }
                &&& final(self).missing_counter == if v == AdminVerdict::Missing {
                    bumped(old(self).missing_counter)
                } else {
                    old(self).missing_counter
                }
                &&& final(self).bad_counter == if v == AdminVerdict::Bad {
                    bumped(old(self).bad_counter)
                } else {
                    old(self).bad_counter
                }
                &&& final(self).disabled_counter == if v == AdminVerdict::Disabled {
                    bumped(old(self).disabled_counter)
                } else {
                    old(self).disabled_counter
                }
            }),
    {
        match &self.expected {
            Some(e) => {
                if header.is_empty() {
                    self.missing_counter = bump(self.missing_counter);
                    return Some(
                        text_reply(
                            401,
                            "text/plain; charset=utf-8",
                            "admin auth required (missing Authorization header)",
                        ),
                    );
                }
                let same: bool = ct_eq(header.as_bytes(), e.as_str().as_bytes());
                proof {
                    lemma_same_bytes_same_text(header@, e@);
                }
                if same {
                    None
                } else {
                    self.bad_counter = bump(self.bad_counter);
                    Some(
                        text_reply(
                            401,
                            "text/plain; charset=utf-8",
                            "admin auth failed (bad or expired token)",
                        ),
                    )
                }
            },
            None => {
                if self.unauthenticated_allowed {
                    None
                } else {
                    self.disabled_counter = bump(self.disabled_counter);
                    Some(
                        text_reply(
                            403,
                            "text/plain; charset=utf-8",
                            "admin surface disabled — set HOLOFS_ADMIN_TOKEN to enable",
                        ),
                    )
                }
            },
        }
    }
}

proof fn lemma_same_bytes_same_text(a: Seq<char>, b: Seq<char>)
    ensures
        encode_utf8(a) == encode_utf8(b) <==> a == b,
{
    vstd::utf8::encode_utf8_decode_utf8(a);
    vstd::utf8::encode_utf8_decode_utf8(b);
}

/// With nothing configured, every request to the administration is refused: it is off, not
/// open.
pub proof fn administration_is_off_by_default(header: Seq<char>)
    ensures
        admin_verdict(None, false, header) == AdminVerdict::Disabled,
{
}

/// With a token configured, exactly the requests that carry it pass, whatever the override.
pub proof fn only_the_token_passes(token: Seq<char>, allowed: bool, header: Seq<char>)
    ensures
        admin_verdict(Some("Bearer "@ + token), allowed, header) == AdminVerdict::Allowed <==> header
            == "Bearer "@ + token,
{
    reveal_strlit("Bearer ");
}

/// The reply that turns a request away where no permit was left, or nothing. `available` is
/// how many permits there were when that was looked up.
pub fn with_permit(acquired: bool, available: u64, rejected: &mut u64) -> (r: Option<Reply>)
    ensures
        if acquired {
            r is None && *final(rejected) == *old(rejected)
        } else {
            &&& *final(rejected) == bumped(*old(rejected))
            &&& r matches Some(p) && p@ == text_answer(
                503,
                "text/plain; charset=utf-8"@,
                "server at capacity ("@ + dec(available as nat)
                    + " permits available), retry with backoff"@,
            )
        },
{
    if acquired {
        return None;
    }
    *rejected = bump(*rejected);
    let t = String::from_str("server at capacity (").concat(dec_string(available).as_str()).concat(
        " permits available), retry with backoff",
    );
    Some(text_reply(503, "text/plain; charset=utf-8", t.as_str()))
}

} // verus!
