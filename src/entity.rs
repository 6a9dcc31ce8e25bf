use vstd::prelude::*;

verus! {

/// What bcrypt's `verify` gives for `password` against the stored `hash`: `Some(true)` when
/// they match, `Some(false)` when they do not, `None` when `hash` is not a bcrypt hash.
pub uninterp spec fn bcrypt_verdict(password: Seq<char>, hash: Seq<char>) -> Option<bool>;

/// Relies on bcrypt's `verify`, which recomputes the hash of `password` with the cost and salt
/// read from `hash`; its result depends on the two strings alone. Its error becomes `None`.
#[verifier::external_body]
fn bcrypt_verify(password: &str, hash: &str) -> (r: Option<bool>)
    ensures
        r == bcrypt_verdict(password@, hash@),
{
    bcrypt::verify(password, hash).ok()
}

/// Relies on bcrypt's `hash` at `DEFAULT_COST`, with a salt from the OS's randomness: what it
/// gives is a hash that `verify` accepts for the same password. Its error (no randomness)
/// becomes `None`.
#[verifier::external_body]
fn bcrypt_hash(password: &str) -> (r: Option<String>)
    ensures
        r is Some ==> bcrypt_verdict(password@, r->0@) == Some(true),
{
    bcrypt::hash(password, bcrypt::DEFAULT_COST).ok()
}

/// The administrator who answers questions.
#[derive(Debug, Clone)]
pub struct Answerer {
    pub id: i32,
    pub email: String,
    pub password_encrypted: String,
}

impl Answerer {
    /// Whether `password` is this answerer's password; a stored hash that is not a bcrypt hash
    /// admits nobody.
    pub open spec fn admits(&self, password: Seq<char>) -> bool {
        bcrypt_verdict(password, self.password_encrypted@) == Some(true)
    }

    /// A new answerer whose password is kept as a bcrypt hash; `None` when no hash could be
    /// made.
    pub fn new(id: i32, email: String, password: String) -> (r: Option<Answerer>)
        ensures
            r is Some ==> r->0.id == id && r->0.email@ == email@ && r->0.admits(password@),
    {
        match bcrypt_hash(password.as_str()) {
            Some(h) => Some(Answerer { id, email, password_encrypted: h }),
            None => None,
        }
    }

    pub fn authenticate(&self, password: String) -> (r: bool)
        ensures
            r == self.admits(password@),
    {
        match bcrypt_verify(password.as_str(), self.password_encrypted.as_str()) {
            Some(ok) => ok,
            None => false,
        }
    }
}

} // verus!
