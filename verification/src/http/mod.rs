//! The wire side of the store: framing and request handling.

pub mod db_methods;
pub mod receiver;
pub mod row_methods;
pub mod table_methods;

use crate::text::join;
use vstd::prelude::*;

verus! {

/// The message that carries a reply back to a connection: the correlation
/// id of the request on the first line, the reply after it.
pub open spec fn message_text(rud: Seq<char>, data: Seq<char>) -> Seq<char> {
    "rud: "@ + rud + "\n"@ + data
}

/// The message that carries a reply back to a connection.
pub fn message_for(rud: &str, data: &str) -> (message: String)
    ensures
        message@ == message_text(rud@, data@),
{
    let mut message = join("rud: ", rud);
    message.append("\n");
    message.append(data);
    message
}

} // verus!
