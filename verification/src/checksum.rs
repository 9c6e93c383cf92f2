//! The checksum of a directory's files: SHA-256 over each file's relative
//! path and contents, files taken in path order.
use crate::order::{distinct_keys, lemma_sort_ignores_order, sort_by_key, sort_spec, Keyed};
use vstd::prelude::*;
use vstd::utf8::encode_utf8;

verus! {

/// The lowercase hexadecimal SHA-256 digest of some bytes.
pub uninterp spec fn sha256_hex(data: Seq<u8>) -> Seq<char>;

/// `sha2::Sha256::digest`, written out with `{:x}`: the digest of `data` in
/// lowercase hexadecimal.
#[verifier::external_body]
fn sha256_hex_of(data: &Vec<u8>) -> (out: String)
    ensures
        out@ == sha256_hex(data@),
{
    format!("{:x}", <sha2::Sha256 as sha2::Digest>::digest(data.as_slice()))
}

/// A file of a directory: its path relative to the directory, with `/`
/// separators, and its bytes.
#[derive(Debug, Clone)]
pub struct FileContent {
    pub rel: String,
    pub bytes: Vec<u8>,
}

impl Keyed for FileContent {
    open spec fn key_of(&self) -> Seq<char> {
        self.rel@
    }

    fn key(&self) -> (k: &str) {
        self.rel.as_str()
    }
}

/// What is hashed: for each file, its path, a zero byte, its contents and
/// another zero byte.
pub open spec fn payload(files: Seq<FileContent>) -> Seq<u8>
    decreases files.len(),
{
    if files.len() == 0 {
        Seq::empty()
    } else {
        payload(files.drop_last()) + encode_utf8(files.last().rel@) + seq![0u8] + files.last().bytes@
            + seq![0u8]
    }
}

fn push_all(out: &mut Vec<u8>, bytes: &[u8])
    ensures
        final(out)@ == old(out)@ + bytes@,
{
    let mut i: usize = 0;
    let ghost start = out@;
    while i < bytes.len()
        invariant
            i <= bytes@.len(),
            out@ == start + bytes@.take(i as int),
        decreases bytes@.len() - i,
    {
        out.push(bytes[i]);
        assert(bytes@.take(i + 1) =~= bytes@.take(i as int).push(bytes@[i as int]));
        i = i + 1;
    }
    assert(bytes@.take(bytes@.len() as int) =~= bytes@);
}

/// The checksum of a directory given its files, in any order.
pub fn checksum_files(files: Vec<FileContent>) -> (out: String)
    ensures
        out@ == sha256_hex(payload(sort_spec(files@))),
{
    let sorted = sort_by_key(files);
    let mut data: Vec<u8> = Vec::new();
    let mut i: usize = 0;
    assert(sorted@.take(0) =~= Seq::<FileContent>::empty());
    while i < sorted.len()
        invariant
            i <= sorted.len(),
            data@ == payload(sorted@.take(i as int)),
        decreases sorted.len() - i,
    {
        let f = &sorted[i];
        push_all(&mut data, f.rel.as_str().as_bytes());
        data.push(0u8);
        push_all(&mut data, f.bytes.as_slice());
        data.push(0u8);
        assert(sorted@.take(i + 1).drop_last() =~= sorted@.take(i as int));
        assert(data@ =~= payload(sorted@.take(i + 1)));
        i = i + 1;
    }
    assert(sorted@.take(sorted@.len() as int) =~= sorted@);
    sha256_hex_of(&data)
}


/// A directory's checksum does not depend on the order in which its files
/// are found: the same files, with distinct paths, give the same checksum.
pub proof fn law_checksum_ignores_file_order(files1: Seq<FileContent>, files2: Seq<FileContent>)
    requires
        files1.to_multiset() == files2.to_multiset(),
        distinct_keys(files1),
    ensures
        sha256_hex(payload(sort_spec(files1))) == sha256_hex(payload(sort_spec(files2))),
{
    lemma_sort_ignores_order(files1, files2);
}

} // verus!
