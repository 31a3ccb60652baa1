//! The shape every enabler image must have before it is written to a drive.
use vstd::prelude::*;
use crate::error::Error;
use crate::text::{dec, push_dec, push_str};

verus! {

/// Expected size of the enabler image: exactly 2 MiB.
pub const EXPECTED_IMAGE_LEN: usize = 2 * 1024 * 1024;

/// Block size everything is aligned to. Raw device I/O on all three platforms
/// is happy with 4096-byte-aligned reads and writes, and 2 MiB is a multiple
/// of it.
pub const BLOCK_SIZE: u64 = 4096;

/// The message of the error for an image of `len` bytes that is not
/// block-aligned.
pub open spec fn misaligned_message(len: nat) -> Seq<char> {
    "image length "@ + dec(len)
        + " is not a multiple of the 4096-byte block size; raw device writes require block alignment"@
}

/// An image is usable for raw device writes when it is non-empty and a whole
/// number of blocks long.
pub open spec fn image_ok(len: nat) -> bool {
    len > 0 && len % (BLOCK_SIZE as nat) == 0
}

/// Validate that an image is usable for raw device writes.
pub fn validate(image: &[u8]) -> (r: Result<(), Error>)
    ensures
        r is Ok <==> image_ok(image@.len()),
        image@.len() == 0 ==> (r matches Err(Error::InvalidImage(m)) && m@ == "image is empty"@),
        image@.len() > 0 && image@.len() % (BLOCK_SIZE as nat) != 0 ==> (r matches Err(
            Error::InvalidImage(m),
        ) && m@ == misaligned_message(image@.len())),
{
    if image.len() == 0 {
        return Err(Error::InvalidImage(String::from_str("image is empty")));
    }
    if (image.len() as u64) % BLOCK_SIZE != 0 {
        let mut m = String::new();
        push_str(&mut m, "image length ");
        push_dec(&mut m, image.len() as u64);
        push_str(
            &mut m,
            " is not a multiple of the 4096-byte block size; raw device writes require block alignment",
        );
        assert(m@ =~= misaligned_message(image@.len()));
        return Err(Error::InvalidImage(m));
    }
    Ok(())
}

} // verus!

verus! {

/// The enabler image size is a whole number of blocks, so an image of the
/// expected size always passes `validate`.
pub proof fn lemma_expected_len_is_valid()
    ensures
        image_ok(EXPECTED_IMAGE_LEN as nat),
{
}

} // verus!
