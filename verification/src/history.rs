//! The history store of the line editor, seen through what it holds.
use vstd::prelude::*;
use rustyline::history::DefaultHistory;
use rustyline::history::History;

verus! {

/// The history store of the line editor `rustyline`, under the name the
/// editor gives to its default store. Nothing of its inside is visible here.
#[verifier::external_type_specification]
#[verifier::external_body]
pub struct ExDefaultHistory(DefaultHistory);

/// The entries a history store holds, oldest first.
pub uninterp spec fn history_entries(h: DefaultHistory) -> Seq<Seq<char>>;

/// The number of entries a history store was set up to keep at most.
pub uninterp spec fn history_limit(h: DefaultHistory) -> nat;

/// What a store holds once `line` has gone in: the line comes last, and the
/// oldest entry has made room for it if the store was full.
pub open spec fn with_entry(entries: Seq<Seq<char>>, limit: nat, line: Seq<char>) -> Seq<Seq<char>> {
    if entries.len() == limit {
        entries.drop_first().push(line)
    } else {
        entries.push(line)
    }
}

/// How a store may differ after `line` was offered to it: it kept its limit,
/// and either took the line in or, having ignored it, holds what it held.
pub open spec fn offered(before: DefaultHistory, after: DefaultHistory, line: Seq<char>) -> bool {
    &&& history_limit(after) == history_limit(before)
    &&& (history_entries(after) == history_entries(before) || history_entries(after)
        == with_entry(history_entries(before), history_limit(before), line))
}

/// Calls `FileHistory::iter` and copies out every entry it yields, oldest
/// first.
#[verifier::external_body]
pub(crate) fn history_lines(h: &DefaultHistory) -> (lines: Vec<String>)
    ensures
        lines.deep_view() == history_entries(*h),
{
    h.iter().cloned().collect()
}

/// Calls `History::add` of `FileHistory`. The store decides by its own
/// settings whether it ignores the line and says so by returning `false`; an
/// empty line it always ignores, and a store with the limit 0 ignores every
/// line. A line it takes in goes to the end, after the oldest entry was
/// dropped from a store that was full. The call never fails for this store.
#[verifier::external_body]
pub(crate) fn history_add(h: &mut DefaultHistory, line: &str) -> (added: bool)
    ensures
        history_limit(*final(h)) == history_limit(*old(h)),
        !added ==> history_entries(*final(h)) == history_entries(*old(h)),
        added ==> history_entries(*final(h)) == with_entry(
            history_entries(*old(h)),
            history_limit(*old(h)),
            line@,
        ),
        line@.len() == 0 ==> !added,
        added ==> history_limit(*old(h)) > 0,
{
    h.add(line).unwrap_or(false)
}

} // verus!
