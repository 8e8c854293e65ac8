//! What marks all parts of one answer as belonging together.

use vstd::prelude::*;

verus! {

/// The characters that a random identifier is made of: the letters and digits of
/// ASCII, `_` and `-`.
pub open spec fn url_safe(c: char) -> bool {
    ||| 'a' <= c <= 'z'
    ||| 'A' <= c <= 'Z'
    ||| '0' <= c <= '9'
    ||| c == '_'
    ||| c == '-'
}

/// `nanoid::format`, with the random numbers and the alphabet that the crate has by
/// default, gives an identifier of `size` characters of that alphabet. Which ones is
/// left to chance.
#[verifier::external_body]
fn random_id(size: usize) -> (r: String)
    requires
        0 < size,
        8 * size <= usize::MAX,
    ensures
        r@.len() == size,
        forall|i: int| 0 <= i < size ==> url_safe(#[trigger] r@[i]),
{
    nanoid::format(nanoid::rngs::default, &nanoid::alphabet::SAFE, size)
}

/// `chrono::Utc::now` gives the current time, and `DateTime::timestamp` counts its
/// seconds since the beginning of 1970. A clock that is set before that makes `now`
/// panic.
#[verifier::external_body]
fn unix_time() -> (r: i64)
    ensures
        r >= 0,
{
    chrono::Utc::now().timestamp()
}

/// The identifier, the time and the model that all parts of an answer carry.
#[derive(Clone, Debug, PartialEq, Eq)]
pub struct AnswerIdentity {
    pub id: String,
    pub created: i64,
    pub model: String,
}

/// The contents of an `AnswerIdentity`.
#[verifier::ext_equal]
pub struct IdentityView {
    pub id: Seq<char>,
    pub created: i64,
    pub model: Seq<char>,
}

impl View for AnswerIdentity {
    type V = IdentityView;

    open spec fn view(&self) -> IdentityView {
        IdentityView { id: self.id@, created: self.created, model: self.model@ }
    }
}

/// Whether an identity may be that of a new answer of `model`: its identifier has ten
/// characters, and its time is a current one.
pub open spec fn is_fresh(identity: IdentityView, model: Seq<char>) -> bool {
    &&& identity.id.len() == 10
    &&& forall|i: int| 0 <= i < identity.id.len() ==> url_safe(#[trigger] identity.id[i])
    &&& identity.created >= 0
    &&& identity.model == model
}

impl AnswerIdentity {
    /// The identity of a new answer of `model`.
    pub fn fresh(model: &str) -> (r: AnswerIdentity)
        ensures
            is_fresh(r@, model@),
    {
        AnswerIdentity { id: random_id(10), created: unix_time(), model: model.to_string() }
    }
}

} // verus!
