use vstd::prelude::*;

verus! {

/// The synthesizer engine's own data: the token it presents to the
/// synthesis service.
pub struct MyEngine {
    pub iam_token: String,
}

impl MyEngine {
    /// An engine that presents `iam_token` to the synthesis service.
    pub fn new(iam_token: String) -> (engine: Self)
        ensures
            engine.iam_token@ == iam_token@,
    {
        MyEngine { iam_token }
    }
}

} // verus!
