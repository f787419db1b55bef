use vstd::prelude::*;

verus! {

/// The credit limit of each recognized client; zero for any other id.
pub open spec fn limit_of(client_id: u8) -> i32 {
    if client_id == 1 {
        100_000
    } else if client_id == 2 {
        80_000
    } else if client_id == 3 {
        1_000_000
    } else if client_id == 4 {
        10_000_000
    } else if client_id == 5 {
        500_000
    } else {
        0
    }
}

/// The recognized clients are the ids one to five.
pub open spec fn is_known_client(client_id: u8) -> bool {
    1 <= client_id <= 5
}

/// Looks up the credit limit of a client.
pub fn limit_by_client_id(client_id: u8) -> (r: i32)
    ensures
        r == limit_of(client_id),
        r >= 0,
        is_known_client(client_id) <==> r > 0,
{
    match client_id {
        1 => 100_000,
        2 => 80_000,
        3 => 1_000_000,
        4 => 10_000_000,
        5 => 500_000,
        _ => 0,
    }
}

/// The limit of a client is fixed: any two lookups of the same id agree.
pub proof fn lemma_limit_is_constant(client_id: u8, first: i32, second: i32)
    requires
        first == limit_of(client_id),
        second == limit_of(client_id),
    ensures
        first == second,
{
}

} // verus!
