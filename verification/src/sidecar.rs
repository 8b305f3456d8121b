//! The text-embedding sidecar: which script and `node` binary it runs, and the
//! checks on the shape of what it answers.
use vstd::prelude::*;
use vstd::string::*;

use crate::encoder::{EmbedderKind, EncoderError};
use crate::outcome::{chosen_node, chosen_sidecar, reply_line, sidecar_command, SidecarOutput};
use crate::text::{decimal, push_decimal};

verus! {

/// The embedding width the sidecar's sentence model emits.
pub const MINILM_DIM: usize = 384;

/// An embedder that runs a `node` sidecar per batch and expects vectors of a
/// declared width.
#[derive(Clone, Debug, PartialEq, Eq)]
pub struct SidecarEmbedder {
    sidecar_path: String,
    node_bin: String,
    dim: usize,
}

/// What a sidecar embedder is: its script, `node` binary and expected width.
pub struct SidecarView {
    /// The sidecar script it runs.
    pub sidecar_path: Seq<char>,
    /// The `node` binary it runs.
    pub node_bin: Seq<char>,
    /// The expected embedding width.
    pub dim: usize,
}

impl View for SidecarEmbedder {
    type V = SidecarView;

    closed spec fn view(&self) -> SidecarView {
        SidecarView { sidecar_path: self.sidecar_path@, node_bin: self.node_bin@, dim: self.dim }
    }
}

/// The reply an embedding run's output yields, or why it yields none.
pub open spec fn embed_reply(o: SidecarOutput) -> Result<Seq<char>, Seq<char>> {
    reply_line(o, "sidecar"@, " (no JSON response)"@)
}

/// Position of the first width other than `expected`, if any.
pub open spec fn first_off_width(widths: Seq<usize>, expected: usize) -> Option<nat>
    decreases widths.len(),
{
    if widths.len() == 0 {
        None
    } else {
        match first_off_width(widths.drop_last(), expected) {
            Some(i) => Some(i),
            None => if widths.last() != expected {
                Some((widths.len() - 1) as nat)
            } else {
                None
            },
        }
    }
}

/// A first off-width position found in a prefix stays the first one.
proof fn lemma_first_off_width_prefix(widths: Seq<usize>, expected: usize, n: int)
    requires
        0 <= n <= widths.len(),
        first_off_width(widths.subrange(0, n), expected) is Some,
    ensures
        first_off_width(widths, expected) == first_off_width(widths.subrange(0, n), expected),
    decreases widths.len() - n,
{
    if n == widths.len() {
        assert(widths.subrange(0, n) == widths);
    } else {
        assert(widths.subrange(0, n + 1).drop_last() == widths.subrange(0, n));
        lemma_first_off_width_prefix(widths, expected, n + 1);
    }
}

/// The first inconsistency of a reply declaring width `got_dim` from model
/// `model`, with vectors of the given widths, against `expected` and `n_tiles`
/// inputs: the declared width, then the vector count, then each vector's width.
pub open spec fn reply_shape_error(
    expected: usize,
    got_dim: usize,
    model: Seq<char>,
    n_tiles: usize,
    widths: Seq<usize>,
) -> Option<Seq<char>> {
    if got_dim != expected {
        Some(
            "sidecar dim mismatch: expected "@ + decimal(expected as nat) + ", got "@ + decimal(
                got_dim as nat,
            ) + " (model="@ + model + ")"@,
        )
    } else if widths.len() != n_tiles {
        Some(
            "sidecar returned "@ + decimal(widths.len()) + " vectors for "@ + decimal(n_tiles as nat)
                + " tiles"@,
        )
    } else if first_off_width(widths, expected) is Some {
        let i = first_off_width(widths, expected)->Some_0;
        Some(
            "vector "@ + decimal(i) + " has width "@ + decimal(widths[i as int] as nat)
                + ", expected "@ + decimal(expected as nat),
        )
    } else {
        None
    }
}

impl SidecarEmbedder {
    /// An embedder running `node_override` (else `node`) on `sidecar_override`
    /// when that is non-empty, else on `sidecar_path`, expecting
    /// [`MINILM_DIM`]-wide vectors. The overrides are what the environment names.
    pub fn new(sidecar_path: String, sidecar_override: Option<String>, node_override: Option<String>) -> (r: Self)
        ensures
            r@.sidecar_path == chosen_sidecar(
                sidecar_path@,
                crate::bench::opt_view(sidecar_override),
            ),
            r@.node_bin == chosen_node(crate::bench::opt_view(node_override)),
            r@.dim == MINILM_DIM,
    {
        let (sidecar, node_bin) = sidecar_command(sidecar_path, sidecar_override, node_override);
        SidecarEmbedder { sidecar_path: sidecar, node_bin, dim: MINILM_DIM }
    }

    /// The sidecar script this embedder runs.
    pub fn sidecar_path(&self) -> (r: &String)
        ensures
            r@ == self@.sidecar_path,
    {
        &self.sidecar_path
    }

    /// The `node` binary this embedder runs.
    pub fn node_bin(&self) -> (r: &String)
        ensures
            r@ == self@.node_bin,
    {
        &self.node_bin
    }

    /// The embedding width this embedder produces.
    pub fn embedding_dim(&self) -> (r: usize)
        ensures
            r == self@.dim,
    {
        self.dim
    }

    /// Which backend this is.
    pub fn kind(&self) -> (r: EmbedderKind)
        ensures
            r == EmbedderKind::Sidecar,
    {
        EmbedderKind::Sidecar
    }

    /// The reply line of a finished embedding run; a failed exit or an empty
    /// reply is a sidecar error.
    pub fn reply(out: &SidecarOutput) -> (r: Result<String, EncoderError>)
        ensures
            match embed_reply(*out) {
                Ok(l) => r matches Ok(s) && s@ == l,
                Err(m) => r matches Err(EncoderError::Sidecar(s)) && s@ == m,
            },
    {
        match out.reply("sidecar", " (no JSON response)") {
            Ok(l) => Ok(l),
            Err(m) => Err(EncoderError::Sidecar(m)),
        }
    }

    /// The error for a reply that could not be decoded.
    pub fn decode_failure(detail: &str) -> (r: EncoderError)
        ensures
            r matches EncoderError::Sidecar(m) && m@ == "parse sidecar response JSON: "@ + detail@,
    {
        EncoderError::Sidecar(String::from_str("parse sidecar response JSON: ").concat(detail))
    }

    /// Check a decoded reply against a batch of `n_tiles` inputs: the declared
    /// width `got_dim` (from model `model`), the number of vectors and the width
    /// of each (`widths`) must all match.
    pub fn check_reply(&self, n_tiles: usize, model: &str, got_dim: usize, widths: &Vec<usize>) -> (r: Result<(), EncoderError>)
        ensures
            match reply_shape_error(self@.dim, got_dim, model@, n_tiles, widths@) {
                Some(m) => r matches Err(EncoderError::Sidecar(s)) && s@ == m,
                None => r is Ok,
            },
    {
        if got_dim != self.dim {
            let mut m = String::from_str("sidecar dim mismatch: expected ");
            push_decimal(&mut m, self.dim);
            m.append(", got ");
            push_decimal(&mut m, got_dim);
            m.append(" (model=");
            m.append(model);
            m.append(")");
            return Err(EncoderError::Sidecar(m));
        }
        if widths.len() != n_tiles {
            let mut m = String::from_str("sidecar returned ");
            push_decimal(&mut m, widths.len());
            m.append(" vectors for ");
            push_decimal(&mut m, n_tiles);
            m.append(" tiles");
            return Err(EncoderError::Sidecar(m));
        }
        let mut i: usize = 0;
        proof {
            assert(widths@.subrange(0, 0) =~= Seq::<usize>::empty());
        }
        while i < widths.len()
            invariant
                i <= widths@.len(),
                got_dim == self@.dim,
                widths@.len() == n_tiles,
                first_off_width(widths@.subrange(0, i as int), self@.dim) is None,
            decreases widths@.len() - i,
        {
            proof {
                assert(widths@.subrange(0, i + 1).drop_last() == widths@.subrange(0, i as int));
            }
            if widths[i] != self.dim {
                proof {
                    assert(widths@.subrange(0, i + 1).last() == widths@[i as int]);
                    assert(first_off_width(widths@.subrange(0, i + 1), self@.dim) == Some(i as nat));
                    lemma_first_off_width_prefix(widths@, self@.dim, i + 1);
                }
                let mut m = String::from_str("vector ");
                push_decimal(&mut m, i);
                m.append(" has width ");
                push_decimal(&mut m, widths[i]);
                m.append(", expected ");
                push_decimal(&mut m, self.dim);
                return Err(EncoderError::Sidecar(m));
            }
            i = i + 1;
        }
        proof {
            assert(widths@.subrange(0, i as int) == widths@);
        }
        Ok(())
    }
}

} // verus!
