//! Files the optimizer does not interpret.
use vstd::prelude::*;
use vstd::string::StringSliceAdditionalSpecFns;

verus! {

#[derive(Clone, Debug)]
pub struct ResourcePackFile {
    pub path: String,
    pub bytes: Vec<u8>,
}

impl ResourcePackFile {
    pub fn new(path: &str, bytes: Vec<u8>) -> (r: Self)
        ensures
            r.path@ == path@,
            r.bytes@ == bytes@,
    {
        ResourcePackFile { path: path.to_owned(), bytes }
    }

    /// A file holding `text`, stored as its UTF-8 bytes.
    pub fn from_text(path: &str, text: &str) -> (r: Self)
        ensures
            r.path@ == path@,
            r.bytes@ == text.spec_bytes(),
    {
        let mut bytes: Vec<u8> = Vec::new();
        let src = text.as_bytes();
        let mut i: usize = 0;
        while i < src.len()
            invariant
                i <= src.len(),
                bytes@ == src@.subrange(0, i as int),
            decreases src.len() - i,
        {
            bytes.push(src[i]);
            i = i + 1;
        }
        assert(src@.subrange(0, src.len() as int) =~= src@);
        Self::new(path, bytes)
    }
}

} // verus!
