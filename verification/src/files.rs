//! The names under which a chain state is kept on disk and packed for a
//! peer that syncs from it.

use crate::hash::spec_hex;
use crate::types::BlockHeader;
use vstd::prelude::*;

verus! {

/// The directory, below the root, that holds the three MMRs.
pub const TXHASHSET_SUBDIR: &'static str = "txhashset";

/// The directory of the MMR of plain and coinbase outputs.
pub const OUTPUT_I_SUBDIR: &'static str = "outputI";

/// The directory of the MMR of signature-locked outputs.
pub const OUTPUT_II_SUBDIR: &'static str = "outputII";

/// The directory of the kernel MMR.
pub const KERNEL_SUBDIR: &'static str = "kernel";

/// What the name of every snapshot archive starts with.
pub const TXHASHSET_ZIP: &'static str = "txhashset_snapshot";

/// For how many seconds a snapshot archive is kept: a day.
pub const ZIP_KEEP_SECS: u64 = 86400;

/// The name of the snapshot archive for the block of `header`:
/// `txhashset_snapshot_`, the hash of the header in hexadecimal, `.zip`.
pub fn zip_file_name(header: &BlockHeader) -> (name: String)
    ensures
        name@ == "txhashset_snapshot"@ + "_"@ + spec_hex(header.hash.bytes@) + ".zip"@,
{
    let mut name = TXHASHSET_ZIP.to_string();
    name.push_str("_");
    name.push_str(header.hash().to_hex().as_str());
    name.push_str(".zip");
    name
}

/// What the names of the snapshot archives start with: the archives older
/// than `ZIP_KEEP_SECS` whose names start so are removed before a new one
/// is made.
pub fn zip_prefix() -> (prefix: String)
    ensures
        prefix@ == "txhashset_snapshot"@ + "_"@,
{
    let mut prefix = TXHASHSET_ZIP.to_string();
    prefix.push_str("_");
    prefix
}

/// The name of the directory into which the chain state is copied while
/// the archive for the block of `header` is made: `txhashset_zip_` and the
/// hash of the header in hexadecimal.
pub fn zip_staging_dir(header: &BlockHeader) -> (name: String)
    ensures
        name@ == "txhashset"@ + "_zip_"@ + spec_hex(header.hash.bytes@),
{
    let mut name = TXHASHSET_SUBDIR.to_string();
    name.push_str("_zip_");
    name.push_str(header.hash().to_hex().as_str());
    name
}

/// The name of a leaf snapshot file: `dir`, `/pmmr_leaf.bin.`, and the
/// hash of the header in hexadecimal.
pub open spec fn leaf_file(dir: Seq<char>, header: BlockHeader) -> Seq<char> {
    dir + "/pmmr_leaf.bin."@ + spec_hex(header.hash.bytes@)
}

fn leaf_file_name(dir: &str, header: &BlockHeader) -> (name: String)
    ensures
        name@ == leaf_file(dir@, *header),
{
    let mut name = dir.to_string();
    name.push_str("/pmmr_leaf.bin.");
    name.push_str(header.hash().to_hex().as_str());
    name
}

/// The files of a snapshot archive, below the chain state directory: the
/// data and hash files of the three MMRs, the prune lists of the two
/// output MMRs, and the leaf snapshots of the two output MMRs for the
/// block of `header`. Only these go into an archive, and only these are
/// taken out of one.
pub fn file_list(header: &BlockHeader) -> (files: Vec<String>)
    ensures
        files@.len() == 10,
        files@[0]@ == "kernel/pmmr_data.bin"@,
        files@[1]@ == "kernel/pmmr_hash.bin"@,
        files@[2]@ == "outputI/pmmr_data.bin"@,
        files@[3]@ == "outputI/pmmr_hash.bin"@,
        files@[4]@ == "outputI/pmmr_prun.bin"@,
        files@[5]@ == "outputII/pmmr_data.bin"@,
        files@[6]@ == "outputII/pmmr_hash.bin"@,
        files@[7]@ == "outputII/pmmr_prun.bin"@,
        files@[8]@ == leaf_file("outputI"@, *header),
        files@[9]@ == leaf_file("outputII"@, *header),
{
    let mut files: Vec<String> = Vec::new();
    // kernel MMR
    files.push("kernel/pmmr_data.bin".to_string());
    files.push("kernel/pmmr_hash.bin".to_string());
    // first output MMR
    files.push("outputI/pmmr_data.bin".to_string());
    files.push("outputI/pmmr_hash.bin".to_string());
    files.push("outputI/pmmr_prun.bin".to_string());
    // second output MMR
    files.push("outputII/pmmr_data.bin".to_string());
    files.push("outputII/pmmr_hash.bin".to_string());
    files.push("outputII/pmmr_prun.bin".to_string());
    // the leaf snapshots of the output MMRs as of the header
    files.push(leaf_file_name(OUTPUT_I_SUBDIR, header));
    files.push(leaf_file_name(OUTPUT_II_SUBDIR, header));
    files
}

} // verus!
