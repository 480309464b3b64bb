//! Reading the envelope of a reply to a query: its data and the errors that
//! the remote reported.

use crate::error::{WalkError, WalkErrorView};
use itertools::Itertools;
use vstd::prelude::*;

verus! {

/// The items written one after another with the separator between each two.
pub open spec fn joined(items: Seq<Seq<char>>, separator: Seq<char>) -> Seq<char>
    decreases items.len(),
{
    if items.len() == 0 {
        Seq::empty()
    } else if items.len() == 1 {
        items[0]
    } else {
        joined(items.drop_last(), separator) + separator + items.last()
    }
}

/// `itertools::Itertools::join` over the items of a vector of strings: every
/// item as it is, with `separator` between each two, and the empty text for
/// no items. The separator is kept short because `join` reserves room for
/// one separator per remaining item before it writes.
#[verifier::external_body]
fn join_texts(items: &Vec<String>, separator: &str) -> (text: String)
    requires
        separator@.len() <= 4,
    ensures
        text@ == joined(items.deep_view(), separator@),
{
    items.iter().join(separator)
}

/// The envelope of a reply: the data, if any came, and the messages of the
/// errors that the remote reported, if it sent that member.
#[derive(Clone, Debug, PartialEq, Eq)]
pub struct Reply<T> {
    pub data: Option<T>,
    pub errors: Option<Vec<String>>,
}

/// The reported error messages that make a reply a failure: those of a list
/// that is present and not empty.
pub open spec fn reported(errors: Option<Vec<String>>) -> Option<Seq<Seq<char>>> {
    match errors {
        Some(list) => if list@.len() > 0 {
            Some(list.deep_view())
        } else {
            None
        },
        None => None,
    }
}

/// The detail of the failure for a reply that reports these errors.
pub open spec fn reported_text(messages: Seq<Seq<char>>) -> Seq<char> {
    "query errors: "@ + joined(messages, ", "@)
}

impl<T> Reply<T> {
    /// Takes the data out of the envelope. Reported errors win over data:
    /// a reply with at least one error is a failed lookup whose detail lists
    /// them all. Without errors, a reply without data is a failed lookup too.
    pub fn into_data(self) -> (result: Result<T, WalkError>)
        ensures
            match reported(self.errors) {
                Some(messages) => result matches Err(error) && error@ == (
                WalkErrorView::LookupFailed { detail: reported_text(messages) }),
                None => match self.data {
                    Some(data) => result == Ok::<T, WalkError>(data),
                    None => result matches Err(error) && error@ == (WalkErrorView::LookupFailed {
                        detail: "query response has no `data` member"@,
                    }),
                },
            },
    {
        let Reply { data, errors } = self;
        if let Some(list) = errors {
            if list.len() > 0 {
                proof {
                    reveal_strlit(", ");
                }
                let listed = join_texts(&list, ", ");
                let detail = String::from_str("query errors: ").concat(listed.as_str());
                return Err(WalkError::LookupFailed { detail });
            }
        }
        match data {
            Some(data) => Ok(data),
            None => Err(
                WalkError::LookupFailed {
                    detail: String::from_str("query response has no `data` member"),
                },
            ),
        }
    }
}

/// The failure for a reply that the transport turned down by its status:
/// the reason, an empty line, and the body that came with it.
pub fn status_failure(reason: &str, body: &str) -> (error: WalkError)
    ensures
        error@ == (WalkErrorView::LookupFailed { detail: reason@ + "\n\n"@ + body@ }),
{
    let detail = String::from_str(reason).concat("\n\n").concat(body);
    WalkError::LookupFailed { detail }
}

} // verus!
