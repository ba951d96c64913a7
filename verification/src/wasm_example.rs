//! The example guest's own logic.
//!
//! A wasm guest built from these functions concatenates two named inputs;
//! the surrounding guest glue (JSON decoding, the return descriptor, the
//! log import) is what the host protocol in [`crate::wasm_plugin`] expects.

use vstd::prelude::*;

verus! {

/// The arguments the example guest expects.
#[derive(Debug)]
pub struct Input {
    pub var1: String,
    pub var2: String,
}

/// Concatenate the two inputs.
pub fn combine_strings(input: Input) -> (r: String)
    ensures
        r@ == input.var1@ + input.var2@,
{
    input.var1.concat(input.var2.as_str())
}

/// Decorate a pipeline value with the two inputs.
pub fn my_test_filter(input: String, input2: Input) -> (r: String)
    ensures
        r@ == "filter: "@ + input@ + " => "@ + input2.var1@ + input2.var2@,
{
    let r = String::from_str("filter: ").concat(input.as_str()).concat(" => ").concat(
        input2.var1.as_str(),
    ).concat(input2.var2.as_str());
    proof {
        assert(r@ =~= "filter: "@ + input@ + " => "@ + input2.var1@ + input2.var2@);
    }
    r
}

} // verus!
