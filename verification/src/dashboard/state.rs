//! The token of the dashboard.
use vstd::prelude::*;

use crate::clock::{id_shape, random_id};

verus! {

/// A new token.
pub fn generate_token() -> (token: String)
    ensures
        id_shape(token@),
{
    random_id()
}

/// What the user is told of the token.
pub open spec fn notice_of(token: Seq<char>) -> Seq<char> {
    "[agentgate] Dashboard token: "@ + token
        + "\n[agentgate] Access the dashboard at http://127.0.0.1:7070 with:\n[agentgate]   Authorization: Bearer "@
        + token
}

/// What the user is told of the token.
pub fn token_notice(token: &str) -> (text: String)
    ensures
        text@ == notice_of(token@),
{
    let mut text = "[agentgate] Dashboard token: ".to_owned();
    text.append(token);
    text.append(
        "\n[agentgate] Access the dashboard at http://127.0.0.1:7070 with:\n[agentgate]   Authorization: Bearer ",
    );
    text.append(token);
    text
}

/// The notice holds the token, and says how to use it.
pub proof fn law_notice_holds_the_token(token: Seq<char>)
    ensures
        "[agentgate] Dashboard token: "@.is_prefix_of(notice_of(token)),
        ("Authorization: Bearer "@ + token).is_suffix_of(notice_of(token)),
{
    reveal_strlit("[agentgate] Dashboard token: ");
    reveal_strlit("Authorization: Bearer ");
    reveal_strlit(
        "\n[agentgate] Access the dashboard at http://127.0.0.1:7070 with:\n[agentgate]   Authorization: Bearer ",
    );
    let all = notice_of(token);
    let tail = "Authorization: Bearer "@ + token;
    assert("[agentgate] Dashboard token: "@ =~= all.take("[agentgate] Dashboard token: "@.len() as int));
    assert(tail =~= all.subrange(all.len() - tail.len(), all.len() as int));
}

} // verus!
