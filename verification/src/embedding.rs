//! Embedding vectors and the validation of embedding-service responses.
//!
//! The host calls the embedding service and hands the response in as plain
//! values; nothing enters the pipeline until `accept_embedding` has checked
//! it against the collection's configured dimension.

use vstd::prelude::*;

use crate::errors::IndexError;

verus! {

/// One embedding vector, carried as the IEEE-754 bit patterns of its 32-bit
/// float components. The pipeline never computes with the components — it
/// checks the dimension and passes them through — so the bit-level carrier
/// keeps the logic exact and loss-free.
#[derive(Debug)]
pub struct EmbeddingVector {
    pub bits: Vec<u32>,
}

impl Clone for EmbeddingVector {
    fn clone(&self) -> (r: EmbeddingVector)
        ensures
            r@ == self@,
    {
        let bits = self.bits.clone();
        proof {
            assert(bits@ =~= self.bits@);
        }
        EmbeddingVector { bits }
    }
}

impl View for EmbeddingVector {
    type V = Seq<u32>;

    closed spec fn view(&self) -> Seq<u32> {
        self.bits@
    }
}

impl EmbeddingVector {
    /// Wrap the raw components of one vector.
    pub fn new(bits: Vec<u32>) -> (v: EmbeddingVector)
        ensures
            v@ == bits@,
    {
        EmbeddingVector { bits }
    }

    /// How many components the vector has.
    pub fn dimension(&self) -> (n: usize)
        ensures
            n == self@.len(),
    {
        self.bits.len()
    }
}

/// The component sequences of a sequence of vectors.
pub open spec fn views_of(vs: Seq<EmbeddingVector>) -> Seq<Seq<u32>> {
    vs.map_values(|v: EmbeddingVector| v@)
}

/// A well-formed embedding response for dimension `dim`: at least one vector,
/// and every vector exactly `dim` wide.
pub open spec fn response_valid(vs: Seq<Seq<u32>>, dim: nat) -> bool {
    vs.len() >= 1 && forall|i: int| 0 <= i < vs.len() ==> (#[trigger] vs[i]).len() == dim
}

/// Admits an embedding-service response into the pipeline, or rejects it as
/// malformed. The result is the response itself exactly when it holds at
/// least one vector and every vector has dimension `dim`; a vector of any
/// other dimension never passes.
pub fn accept_embedding(raw: Vec<EmbeddingVector>, dim: usize) -> (r: Result<
    Vec<EmbeddingVector>,
    IndexError,
>)
    ensures
        match r {
            Ok(v) => response_valid(views_of(raw@), dim as nat) && v == raw && v@.len() >= 1
                && forall|i: int| 0 <= i < v@.len() ==> (#[trigger] v@[i]@).len() == dim,
            Err(e) => !response_valid(views_of(raw@), dim as nat) && e
                == IndexError::EmbeddingMalformedResponse,
        },
{
    let n = raw.len();
    if n == 0 {
        return Err(IndexError::EmbeddingMalformedResponse);
    }
    let mut i: usize = 0;
    while i < n
        invariant
            n == raw.len(),
            i <= n,
            forall|j: int| 0 <= j < i ==> (#[trigger] raw@[j]@).len() == dim,
        decreases n - i,
    {
        if raw[i].dimension() != dim {
            proof {
                assert(views_of(raw@)[i as int] == raw@[i as int]@);
            }
            return Err(IndexError::EmbeddingMalformedResponse);
        }
        i = i + 1;
    }
    proof {
        assert(forall|j: int| 0 <= j < raw@.len() ==> #[trigger] views_of(raw@)[j] == raw@[j]@);
    }
    Ok(raw)
}

} // verus!
