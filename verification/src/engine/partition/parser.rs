//! Partitions: the id under which a partition's queries run.

use vstd::prelude::*;
use crate::number::{int_text, usize_to_string};
use crate::query_api::definition::annotation::Annotation;
use crate::query_api::execution::execution_element::Partition;
use crate::text::{concat, owned, str_eq};

verus! {

/// The position of the first annotation named `name`, from `from` on.
pub open spec fn first_annotation(anns: Seq<Annotation>, name: Seq<char>, from: int) -> Option<int>
    decreases anns.len() - from,
{
    if from < 0 || from >= anns.len() {
        None
    } else if anns[from].name@ == name {
        Some(from)
    } else {
        first_annotation(anns, name, from + 1)
    }
}

/// The position of the first element keyed `key`, from `from` on.
pub open spec fn first_element(elements: Seq<(String, String)>, key: Seq<char>, from: int) -> Option<int>
    decreases elements.len() - from,
{
    if from < 0 || from >= elements.len() {
        None
    } else if elements[from].0@ == key {
        Some(from)
    } else {
        first_element(elements, key, from + 1)
    }
}

/// The id of a partition: the `name` element of its first `info` annotation
/// when that annotation has one, else `partition_<index>`.
pub open spec fn partition_id_spec(anns: Seq<Annotation>, index: usize) -> Seq<char> {
    let fallback = "partition_"@ + int_text(index as int);
    match first_annotation(anns, "info"@, 0) {
        Some(i) => match first_element(anns[i].elements@, "name"@, 0) {
            Some(j) => anns[i].elements@[j].1@,
            None => fallback,
        },
        None => fallback,
    }
}

/// `first_annotation(anns, name, 0)`.
fn find_annotation(anns: &Vec<Annotation>, name: &str) -> (r: Option<usize>)
    ensures
        r matches Some(i) ==> i < anns@.len() && Some(i as int) == first_annotation(anns@, name@, 0),
        r is None ==> first_annotation(anns@, name@, 0) is None,
{
    let mut i: usize = 0;
    while i < anns.len()
        invariant
            i <= anns@.len(),
            first_annotation(anns@, name@, 0) == first_annotation(anns@, name@, i as int),
        decreases anns@.len() - i,
    {
        if str_eq(anns[i].name.as_str(), name) {
            return Some(i);
        }
        i = i + 1;
    }
    None
}

/// `first_element(elements, key, 0)`.
fn find_element(elements: &Vec<(String, String)>, key: &str) -> (r: Option<usize>)
    ensures
        r matches Some(j) ==> j < elements@.len() && Some(j as int) == first_element(elements@, key@, 0),
        r is None ==> first_element(elements@, key@, 0) is None,
{
    let mut j: usize = 0;
    while j < elements.len()
        invariant
            j <= elements@.len(),
            first_element(elements@, key@, 0) == first_element(elements@, key@, j as int),
        decreases elements@.len() - j,
    {
        if str_eq(elements[j].0.as_str(), key) {
            return Some(j);
        }
        j = j + 1;
    }
    None
}

/// Sets partitions up.
pub struct PartitionParser;

impl PartitionParser {
    /// The id under which the queries of `partition`, the partition at
    /// `partition_index` of its application, run (`partition_id_spec`).
    pub fn partition_id(partition: &Partition, partition_index: usize) -> (r: String)
        ensures
            r@ == partition_id_spec(partition.annotations@, partition_index),
    {
        proof {
            reveal_strlit("info");
            reveal_strlit("name");
        }
        if let Some(i) = find_annotation(&partition.annotations, "info") {
            if let Some(j) = find_element(&partition.annotations[i].elements, "name") {
                return owned(partition.annotations[i].elements[j].1.as_str());
            }
        }
        let index = usize_to_string(partition_index);
        concat("partition_", index.as_str())
    }
}

} // verus!
