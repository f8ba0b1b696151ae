//! The variant-list generator: the number of variants of an enum and the
//! list of its variants, in declaration order.
use crate::error::DeriveError;
use crate::model::{Body, DeriveInput};
use vstd::prelude::*;

verus! {

/// What to generate: `COUNT` and `VARIANTS`.
#[derive(Clone, Debug, PartialEq, Eq)]
pub struct ArrayPlan {
    pub count: usize,
    pub variants: Vec<String>,
}

/// Derives the variant count and the variant list of an enum.
pub fn derive_enum_array(input: &DeriveInput) -> (r: Result<ArrayPlan, DeriveError>)
    ensures
        match input.body {
            Body::Enum(vs) => r is Ok && r->Ok_0.count == vs@.len() && r->Ok_0.variants@.len()
                == vs@.len() && forall|i: int|
                0 <= i < vs@.len() ==> r->Ok_0.variants@[i] == vs@[i].name,
            _ => r == Err::<ArrayPlan, DeriveError>(DeriveError::NotEnum),
        },
{
    let vs = match &input.body {
        Body::Enum(vs) => vs,
        _ => {
            return Err(DeriveError::NotEnum);
        },
    };
    let mut variants: Vec<String> = Vec::new();
    let mut i: usize = 0;
    while i < vs.len()
        invariant
            i <= vs@.len(),
            variants@.len() == i,
            forall|j: int| 0 <= j < i ==> variants@[j] == vs@[j].name,
        decreases vs@.len() - i,
    {
        variants.push(vs[i].name.clone());
        i = i + 1;
    }
    Ok(ArrayPlan { count: vs.len(), variants })
}

} // verus!
