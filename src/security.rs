use vstd::prelude::*;

verus! {

/// How long an issued token stays valid: seven days, in seconds.
pub const TOKEN_LIFETIME_SECS: i64 = 7 * 24 * 60 * 60;

/// What a session token asserts: its subject and when it expires.
#[derive(Clone, Debug)]
pub struct Claims {
    pub sub: String,
    pub exp: i64,
}

impl Claims {
    /// Claims for `sub` issued at Unix time `now`, expiring one token lifetime
    /// later; `None` where that instant is past the range of `i64`.
    pub fn expiring(sub: &str, now: i64) -> (r: Option<Claims>)
        ensures
            now <= i64::MAX - TOKEN_LIFETIME_SECS ==> r is Some && r->Some_0.sub@ == sub@
                && r->Some_0.exp == now + TOKEN_LIFETIME_SECS,
            now > i64::MAX - TOKEN_LIFETIME_SECS ==> r is None,
    {
        if now > i64::MAX - TOKEN_LIFETIME_SECS {
            None
        } else {
            Some(Claims { sub: sub.to_owned(), exp: now + TOKEN_LIFETIME_SECS })
        }
    }

    /// Whether the claims are still valid at Unix time `now`.
    pub fn is_valid_at(&self, now: i64) -> (r: bool)
        ensures
            r == (now < self.exp),
    {
        now < self.exp
    }
}

/// Claims for `user_id` issued at Unix time `now`, expiring one token
/// lifetime later; `None` where that instant is past the range of `i64`.
pub fn issue_claims(user_id: &str, now: i64) -> (r: Option<Claims>)
    ensures
        now <= i64::MAX - TOKEN_LIFETIME_SECS ==> r is Some && r->Some_0.sub@ == user_id@
            && r->Some_0.exp == now + TOKEN_LIFETIME_SECS,
        now > i64::MAX - TOKEN_LIFETIME_SECS ==> r is None,
{
    Claims::expiring(user_id, now)
}

/// The token carried by an `Authorization` header of the form `Bearer <token>`.
pub open spec fn bearer_token_of(header: Seq<char>) -> Option<Seq<char>> {
    if header.len() >= 7 && header.subrange(0, 7) == seq!['B', 'e', 'a', 'r', 'e', 'r', ' '] {
        Some(header.subrange(7, header.len() as int))
    } else {
        None
    }
}

/// The token of an `Authorization` header of the form `Bearer <token>`, or
/// `None` where the header has another form.
pub fn bearer_token(header: &str) -> (r: Option<String>)
    ensures
        r is Some <==> bearer_token_of(header@) is Some,
        r is Some ==> r->Some_0@ == bearer_token_of(header@)->Some_0,
{
    let prefix = "Bearer ";
    proof {
        reveal_strlit("Bearer ");
    }
    let n = header.unicode_len();
    if n < 7 {
        return None;
    }
    let mut i: usize = 0;
    while i < 7
        invariant
            i <= 7,
            n == header@.len(),
            n >= 7,
            prefix@ == seq!['B', 'e', 'a', 'r', 'e', 'r', ' '],
            forall|j: int| 0 <= j < i ==> header@[j] == prefix@[j],
        decreases 7 - i,
    {
        if header.get_char(i) != prefix.get_char(i) {
            assert(header@.subrange(0, 7)[i as int] != prefix@[i as int]);
            return None;
        }
        i += 1;
    }
    assert(header@.subrange(0, 7) =~= seq!['B', 'e', 'a', 'r', 'e', 'r', ' ']);
    Some(header.substring_char(7, n).to_owned())
}

} // verus!
