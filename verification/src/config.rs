//! Configuration of fee accounting and of the modules the executor talks to.

use vstd::prelude::*;

verus! {

/// Where a module listens.
#[derive(Debug, Clone)]
pub struct Module {
    pub address: String,
}

/// The web and language-model modules.
#[derive(Debug, Clone)]
pub struct Modules {
    pub llm: Module,
    pub web: Module,
}

/// The default up-front cost expression: nothing.
pub fn default_fee_expr_zero() -> (r: String)
    ensures
        r@ == "0"@,
{
    String::from_str("0")
}

/// How one kind of charge is priced and which bucket pays it.
#[derive(Debug, Clone)]
pub struct FeesBucketConfig {
    pub bucket_no: u8,
    /// Cost charged once, up front, when the bucket is set up.
    pub subtract_on_start_expr: String,
    /// Cost charged per change.
    pub delta_expr: String,
}

/// Pricing of every kind of charge.
#[derive(Debug, Clone)]
pub struct FeesConfig {
    pub expr_prelude: String,
    pub storage: FeesBucketConfig,
    pub message_receipt: FeesBucketConfig,
    pub nondet_output: FeesBucketConfig,
    pub message_fee: FeesBucketConfig,
}

} // verus!
