//! Command-line surface of the core: the parsed command shapes, validation
//! of the sort arguments, and the deterministic listing they select.
//! Argument tokenization, printing and the actual OS calls live outside.

use vstd::prelude::*;

use crate::data_structures::ProcessInfo;
use crate::query::{
    apply_filter_and_sort, filtered_view, sort_by_key, sorted_by, SortField, SortOrder,
};

verus! {

/// A parsed invocation.
pub struct Cli {
    pub command: Commands,
}

/// The two operations the command line exposes.
pub enum Commands {
    /// List all running processes, filtered and sorted.
    List { sort_by: String, order: String, filter: Option<String> },
    /// Send a termination signal to a process.
    Kill { pid: i32, signal: String },
}

/// Rejection of a query argument before any sorting happens.
#[derive(Debug, Clone, Copy, PartialEq, Eq, Structural)]
pub enum QueryError {
    /// The sort key is not one of `pid`, `cpu`, `memory`, `command`.
    InvalidSortField,
}

/// The sort field a name denotes, when it is recognized.
pub open spec fn spec_sort_field(name: Seq<char>) -> Option<SortField> {
    if name == "pid"@ {
        Some(SortField::PID)
    } else if name == "cpu"@ {
        Some(SortField::CPU)
    } else if name == "memory"@ {
        Some(SortField::Memory)
    } else if name == "command"@ {
        Some(SortField::Command)
    } else {
        None
    }
}

/// The order a name denotes: `asc` is ascending, anything else descending.
pub open spec fn spec_sort_order(name: Seq<char>) -> SortOrder {
    if name == "asc"@ {
        SortOrder::Ascending
    } else {
        SortOrder::Descending
    }
}

/// Validates a sort key. Exactly `pid`, `cpu`, `memory` and `command` are
/// accepted; anything else is `InvalidSortField`, rejected before sorting.
pub fn parse_sort_field(name: &str) -> (r: Result<SortField, QueryError>)
    ensures
        r == match spec_sort_field(name@) {
            Some(f) => Result::<SortField, QueryError>::Ok(f),
            None => Result::<SortField, QueryError>::Err(QueryError::InvalidSortField),
        },
{
    let n = String::from_str(name);
    if n == String::from_str("pid") {
        Ok(SortField::PID)
    } else if n == String::from_str("cpu") {
        Ok(SortField::CPU)
    } else if n == String::from_str("memory") {
        Ok(SortField::Memory)
    } else if n == String::from_str("command") {
        Ok(SortField::Command)
    } else {
        Err(QueryError::InvalidSortField)
    }
}

/// Resolves an order name: `asc` sorts ascending, any other name
/// descending.
pub fn parse_sort_order(name: &str) -> (r: SortOrder)
    ensures
        r == spec_sort_order(name@),
{
    let n = String::from_str(name);
    if n == String::from_str("asc") {
        SortOrder::Ascending
    } else {
        SortOrder::Descending
    }
}

/// The filter text an optional argument denotes: absent means no filter.
pub open spec fn spec_query_text(filter: Option<String>) -> Seq<char> {
    match filter {
        Some(q) => q@,
        None => Seq::empty(),
    }
}

/// The listing a `list` invocation produces: the snapshot filtered by the
/// optional text and stable-sorted by the requested field and order. An
/// unrecognized sort key is rejected before any sorting.
pub fn list_view(
    processes: Vec<ProcessInfo>,
    sort_by: &str,
    order: &str,
    filter: &Option<String>,
) -> (r: Result<Vec<ProcessInfo>, QueryError>)
    ensures
        r is Ok <==> spec_sort_field(sort_by@) is Some,
        r matches Err(e) ==> e == QueryError::InvalidSortField,
        r matches Ok(v) ==> {
            &&& v@ == sort_by_key(
                spec_sort_field(sort_by@).unwrap(),
                spec_sort_order(order@),
                filtered_view(processes@, spec_query_text(*filter)),
            )
            &&& sorted_by(v@, spec_sort_field(sort_by@).unwrap(), spec_sort_order(order@))
        },
{
    let field = match parse_sort_field(sort_by) {
        Ok(f) => f,
        Err(e) => {
            return Err(e);
        },
    };
    let ord = parse_sort_order(order);
    match filter {
        Some(q) => Ok(apply_filter_and_sort(processes, q.as_str(), field, ord)),
        None => {
            proof {
                reveal_strlit("");
            }
            Ok(apply_filter_and_sort(processes, "", field, ord))
        },
    }
}

} // verus!
