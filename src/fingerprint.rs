//! Structural and skeleton fingerprints of a register tree.
use vstd::prelude::*;

use crate::canon::{nodes_text, tree_text};
use crate::model::RegisterCluster;
use crate::text::{hex_text, push_hex};

verus! {

/// The MD5 digest of a byte string.
pub uninterp spec fn md5_of(data: Seq<u8>) -> Seq<u8>;

/// Relies on `md5::compute`: the 16-byte MD5 digest of the input, which
/// depends on the bytes alone.
#[verifier::external_body]
fn md5_digest(data: &[u8]) -> (r: Vec<u8>)
    ensures
        r@ == md5_of(data@),
        r@.len() == 16,
{
    md5::compute(data).0.to_vec()
}

/// The UTF-8 bytes of a text.
pub open spec fn utf8(s: Seq<char>) -> Seq<u8> {
    vstd::utf8::encode_utf8(s)
}

/// Eight hexadecimal digits taken from the digest of a text.
pub open spec fn short_digest(s: Seq<char>) -> Seq<char> {
    hex_text(md5_of(utf8(s)).take(4))
}

/// The identifier of a tree: the short structural digest, `_`, the short
/// skeleton digest.
pub open spec fn tree_id(registers: Seq<RegisterCluster>) -> Seq<char> {
    short_digest(nodes_text(registers, false)) + "_"@ + short_digest(nodes_text(registers, true))
}

/// The identifier of a tree that carries the names of its owner instead of
/// the skeleton digest.
pub open spec fn named_tree_id(
    registers: Seq<RegisterCluster>,
    device: Seq<char>,
    peripheral: Seq<char>,
) -> Seq<char> {
    short_digest(nodes_text(registers, false)) + "_"@ + device + "_"@ + peripheral
}

/// Appends the eight-digit short digest of `s`.
pub fn push_short_digest(out: &mut String, s: &String)
    ensures
        final(out)@ == old(out)@ + short_digest(s@),
{
    let d = md5_digest(s.as_str().as_bytes());
    push_hex(out, &d, 4);
}

/// The canonical text of a tree together with its identifier.
pub struct Fingerprint {
    pub id: String,
    /// The short digest of the skeleton text.
    pub skeleton: String,
    pub payload: String,
}

/// Computes the canonical text of `registers` and its identifier: with
/// `show_name`, the short structural digest followed by the device and
/// peripheral names; otherwise the short structural and skeleton digests.
pub fn fingerprint(
    registers: &Vec<RegisterCluster>,
    device: &String,
    peripheral: &String,
    show_name: bool,
) -> (r: Fingerprint)
    ensures
        r.payload@ == nodes_text(registers@, false),
        r.skeleton@ == short_digest(nodes_text(registers@, true)),
        r.id@ == if show_name {
            named_tree_id(registers@, device@, peripheral@)
        } else {
            tree_id(registers@)
        },
{
    let payload = tree_text(registers, false);
    let mut skeleton = String::new();
    push_short_digest(&mut skeleton, &tree_text(registers, true));
    let mut id = String::new();
    push_short_digest(&mut id, &payload);
    id.append("_");
    if show_name {
        id.append(device.as_str());
        id.append("_");
        id.append(peripheral.as_str());
    } else {
        id.append(skeleton.as_str());
    }
    Fingerprint { id, skeleton, payload }
}

} // verus!
