//! Shard-file bookkeeping: the names of the shard files, the check that a
//! found set of shard files is exactly the expected one, and the idempotent
//! fast-path decision of the partitioner.

use vstd::prelude::*;
use vstd::string::StringExecFns;

use crate::text::dec_rep;
use crate::text::push_decimal;
use crate::text::str_eq;
use crate::text::trim_xml;
use crate::text::trim_xml_suffix;

verus! {

/// Why the set of shard files in the temp directory was rejected.
#[derive(Clone, Copy, Debug, PartialEq, Eq, Structural)]
pub enum FilesError {
    ExtraXmlFile,
    WrongXmlCount,
}

/// The name of shard `i` (counted from 0): the temp path, the base name with
/// every trailing ".xml" removed, "-split", the 1-based shard number, ".xml".
pub open spec fn shard_file_name(base: Seq<char>, temp: Seq<char>, i: int) -> Seq<char> {
    temp + trim_xml(base) + "-split"@ + dec_rep(i + 1) + ".xml"@
}

/// Computes the per-shard file names for an input file.
pub fn generate_xml_file_names(base_file: String, temp_path: String, num_threads: usize) -> (out:
    Vec<String>)
    ensures
        out@.len() == num_threads,
        forall|i: int|
            0 <= i < num_threads ==> #[trigger] out@[i]@ == shard_file_name(
                base_file@,
                temp_path@,
                i,
            ),
{
    let trimmed = trim_xml_suffix(base_file.as_str());
    let mut out: Vec<String> = Vec::new();
    let mut i: usize = 0;
    while i < num_threads
        invariant
            i <= num_threads,
            trimmed@ == trim_xml(base_file@),
            out@.len() == i,
            forall|j: int|
                0 <= j < i ==> #[trigger] out@[j]@ == shard_file_name(base_file@, temp_path@, j),
        decreases num_threads - i,
    {
        let mut path = String::new();
        path.append(temp_path.as_str());
        path.append(trimmed.as_str());
        path.append("-split");
        push_decimal(i + 1, &mut path);
        path.append(".xml");
        proof {
            assert(path@ =~= shard_file_name(base_file@, temp_path@, i as int));
        }
        out.push(path);
        i += 1;
    }
    out
}

/// True when `name` is one of the names in `expected`.
pub open spec fn name_listed(expected: Seq<String>, name: Seq<char>) -> bool {
    exists|j: int| 0 <= j < expected.len() && expected[j]@ == name
}

fn name_in_list(list: &Vec<String>, name: &String) -> (r: bool)
    ensures
        r == name_listed(list@, name@),
{
    let mut j: usize = 0;
    while j < list.len()
        invariant
            j <= list@.len(),
            forall|k: int| 0 <= k < j ==> list@[k]@ != name@,
        decreases list@.len() - j,
    {
        if str_eq(list[j].as_str(), name.as_str()) {
            return true;
        }
        j += 1;
    }
    false
}

/// Checks the ".xml" entries found in the temp directory against the expected
/// shard file names: every found name must be an expected one, and there must
/// be exactly one entry per shard.
pub fn check_xml_files(xml_files: Vec<String>, num_threads: usize, found_xml: Vec<String>) -> (r:
    Result<(), FilesError>)
    ensures
        match r {
            Ok(()) => found_xml@.len() == num_threads && forall|i: int|
                0 <= i < found_xml@.len() ==> name_listed(xml_files@, #[trigger] found_xml@[i]@),
            Err(FilesError::ExtraXmlFile) => exists|i: int|
                0 <= i < found_xml@.len() && !name_listed(xml_files@, #[trigger] found_xml@[i]@),
            Err(FilesError::WrongXmlCount) => found_xml@.len() != num_threads && forall|i: int|
                0 <= i < found_xml@.len() ==> name_listed(xml_files@, #[trigger] found_xml@[i]@),
        },
{
    let mut i: usize = 0;
    while i < found_xml.len()
        invariant
            i <= found_xml@.len(),
            forall|k: int| 0 <= k < i ==> name_listed(xml_files@, #[trigger] found_xml@[k]@),
        decreases found_xml@.len() - i,
    {
        if !name_in_list(&xml_files, &found_xml[i]) {
            return Err(FilesError::ExtraXmlFile);
        }
        i += 1;
    }
    if found_xml.len() != num_threads {
        return Err(FilesError::WrongXmlCount);
    }
    Ok(())
}

/// The idempotent fast path: re-partitioning is skipped exactly when every
/// expected shard file is already present.
pub fn all_shards_present(present: &Vec<bool>) -> (r: bool)
    ensures
        r == (forall|i: int| 0 <= i < present@.len() ==> #[trigger] present@[i]),
{
    let mut i: usize = 0;
    while i < present.len()
        invariant
            i <= present@.len(),
            forall|k: int| 0 <= k < i ==> #[trigger] present@[k],
        decreases present@.len() - i,
    {
        if !present[i] {
            return false;
        }
        i += 1;
    }
    true
}

} // verus!
