//! The registry of status codes and their reason phrases.
use vstd::prelude::*;
use vstd::string::StringExecFns;
use crate::text::{append_decimal, decimal};

verus! {

/// The reason phrase that the registry holds for `code`, if it holds one.
pub open spec fn registered_reason(code: u16) -> Option<Seq<char>> {
    if code == 200 {
        Some(seq!['O', 'K'])
    } else if code == 201 {
        Some(seq!['C', 'r', 'e', 'a', 't', 'e', 'd'])
    } else if code == 202 {
        Some(seq!['A', 'c', 'c', 'e', 'p', 't', 'e', 'd'])
    } else if code == 400 {
        Some(seq!['B', 'a', 'd', ' ', 'R', 'e', 'q', 'u', 'e', 's', 't'])
    } else {
        None
    }
}

/// A lookup by a code that the registry does not hold.
#[derive(Debug, Clone, Copy, PartialEq, Eq)]
pub struct UnknownStatusCode {
    pub code: u16,
}

/// An entry of the status registry: a numeric code and its reason phrase.
///
/// The fields are private, so every value is one of the registry's entries.
#[derive(Debug, Clone, Copy)]
pub struct HttpStatus {
    code: u16,
    reason_phrase: &'static str,
}

impl HttpStatus {
    /// 200 OK.
    pub fn ok() -> (r: HttpStatus)
        ensures
            r.spec_code() == 200,
            registered_reason(200) == Some(r.spec_reason()),
    {
        proof {
            reveal_strlit("OK");
            assert("OK"@ =~= seq!['O', 'K']);
        }
        HttpStatus { code: 200, reason_phrase: "OK" }
    }

    /// 201 Created.
    pub fn created() -> (r: HttpStatus)
        ensures
            r.spec_code() == 201,
            registered_reason(201) == Some(r.spec_reason()),
    {
        proof {
            reveal_strlit("Created");
            assert("Created"@ =~= seq!['C', 'r', 'e', 'a', 't', 'e', 'd']);
        }
        HttpStatus { code: 201, reason_phrase: "Created" }
    }

    /// 202 Accepted.
    pub fn accepted() -> (r: HttpStatus)
        ensures
            r.spec_code() == 202,
            registered_reason(202) == Some(r.spec_reason()),
    {
        proof {
            reveal_strlit("Accepted");
            assert("Accepted"@ =~= seq!['A', 'c', 'c', 'e', 'p', 't', 'e', 'd']);
        }
        HttpStatus { code: 202, reason_phrase: "Accepted" }
    }

    /// 400 Bad Request.
    pub fn bad_request() -> (r: HttpStatus)
        ensures
            r.spec_code() == 400,
            registered_reason(400) == Some(r.spec_reason()),
    {
        proof {
            reveal_strlit("Bad Request");
            assert("Bad Request"@ =~= seq!['B', 'a', 'd', ' ', 'R', 'e', 'q', 'u', 'e', 's', 't']);
        }
        HttpStatus { code: 400, reason_phrase: "Bad Request" }
    }

    /// Every status is an entry of the registry.
    #[verifier::type_invariant]
    spec fn registered(&self) -> bool {
        registered_reason(self.code) == Some(self.reason_phrase@)
    }

    pub closed spec fn spec_code(&self) -> u16 {
        self.code
    }

    pub closed spec fn spec_reason(&self) -> Seq<char> {
        self.reason_phrase@
    }

    /// Looks `code` up in the registry.
    pub fn from(code: u16) -> (r: Result<HttpStatus, UnknownStatusCode>)
        ensures
            match r {
                Ok(s) => s.spec_code() == code && registered_reason(code) == Some(s.spec_reason()),
                Err(e) => registered_reason(code) is None && e.code == code,
            },
    {
        if code == 200 {
            Ok(HttpStatus::ok())
        } else if code == 201 {
            Ok(HttpStatus::created())
        } else if code == 202 {
            Ok(HttpStatus::accepted())
        } else if code == 400 {
            Ok(HttpStatus::bad_request())
        } else {
            Err(UnknownStatusCode { code })
        }
    }

    /// The code in decimal, a space, and the reason phrase.
    pub open spec fn spec_text(&self) -> Seq<char> {
        decimal(self.spec_code() as nat) + seq![' '] + self.spec_reason()
    }

    /// The code in decimal, a space, and the reason phrase, as in `200 OK`.
    pub fn to_string(&self) -> (r: String)
        ensures
            r@ == self.spec_text(),
            registered_reason(self.spec_code()) == Some(self.spec_reason()),
    {
        proof {
            use_type_invariant(self);
        }
        let mut r = String::new();
        append_decimal(&mut r, self.code);
        r.append(" ");
        r.append(self.reason_phrase);
        proof {
            reveal_strlit(" ");
            assert(r@ =~= self.spec_text());
        }
        r
    }

    /// The code; the registry holds it with this status's reason phrase.
    pub fn code(&self) -> (r: u16)
        ensures
            r == self.spec_code(),
            registered_reason(r) == Some(self.spec_reason()),
    {
        proof {
            use_type_invariant(self);
        }
        self.code
    }

    /// The reason phrase; the registry holds it for this status's code.
    pub fn reason_phrase(&self) -> (r: &'static str)
        ensures
            r@ == self.spec_reason(),
            registered_reason(self.spec_code()) == Some(r@),
    {
        proof {
            use_type_invariant(self);
        }
        self.reason_phrase
    }
}

} // verus!
