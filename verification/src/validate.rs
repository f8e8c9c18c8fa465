//! Telling sound changes from broken ones.

use vstd::prelude::*;
use crate::brackets::unbalanced;
use crate::chars;
use crate::generator::ContributionGenerator;
use crate::models::{change_views, ChangeView, FileChange};
use crate::text;

verus! {

/// How many bytes a new file has to hold besides the white space around them.
pub const MIN_NEW_FILE_BYTES: usize = 10;

/// How many brackets of a changed file may be unbalanced.
pub const MAX_UNBALANCED: usize = 5;

/// The change can be accepted: a new file is not too short, a change of a file
/// changes it, and not too many brackets are unbalanced.
pub open spec fn is_sound(change: ChangeView) -> bool {
    &&& change.is_new_file ==> chars::byte_len(chars::trim(change.new_content))
        >= MIN_NEW_FILE_BYTES
    &&& change.original_content != Some(change.new_content)
    &&& unbalanced(change.new_content) <= MAX_UNBALANCED
}

/// There are changes, and each of them can be accepted.
pub open spec fn are_sound(changes: Seq<ChangeView>) -> bool {
    changes.len() > 0 && forall|i: int| 0 <= i < changes.len() ==> is_sound(#[trigger] changes[i])
}

/// A change that leaves a file as it was spoils every list that it stands in.
pub proof fn law_no_op_rejected(changes: Seq<ChangeView>, i: int)
    requires
        0 <= i < changes.len(),
        changes[i].original_content == Some(changes[i].new_content),
    ensures
        !are_sound(changes),
{
    assert(!is_sound(changes[i]));
}

/// A new file of white space alone spoils every list that it stands in.
pub proof fn law_blank_new_file_rejected(changes: Seq<ChangeView>, i: int)
    requires
        0 <= i < changes.len(),
        changes[i].is_new_file,
        chars::is_blank(changes[i].new_content),
    ensures
        !are_sound(changes),
{
    let content = changes[i].new_content;
    chars::lemma_trim_blank(content);
    assert(vstd::utf8::encode_utf8(Seq::<char>::empty()).len() == 0);
    assert(!is_sound(changes[i]));
}

/// Two lists are accepted together exactly where each is by itself.
pub proof fn law_validation_splits(a: Seq<ChangeView>, b: Seq<ChangeView>)
    requires
        a.len() > 0,
        b.len() > 0,
    ensures
        are_sound(a + b) == (are_sound(a) && are_sound(b)),
{
    let all = a + b;
    if are_sound(all) {
        assert forall|i: int| 0 <= i < a.len() implies is_sound(#[trigger] a[i]) by {
            assert(all[i] == a[i]);
        }
        assert forall|i: int| 0 <= i < b.len() implies is_sound(#[trigger] b[i]) by {
            assert(all[a.len() + i] == b[i]);
        }
    }
}

/// Changes are accepted exactly where there are any, a new file holds at least
/// ten bytes besides the white space around them, a changed file is not what it
/// was, and at most five brackets of each are unbalanced.
pub proof fn law_accepted_iff(changes: Seq<ChangeView>)
    ensures
        are_sound(changes) <==> changes.len() > 0 && forall|i: int|
            0 <= i < changes.len() ==> {
                let change = #[trigger] changes[i];
                &&& change.is_new_file ==> chars::byte_len(chars::trim(change.new_content)) >= 10
                &&& change.original_content matches Some(original) ==> original
                    != change.new_content
                &&& unbalanced(change.new_content) <= 5
            },
{
    if changes.len() > 0 && forall|i: int|
        0 <= i < changes.len() ==> {
            let change = #[trigger] changes[i];
            &&& change.is_new_file ==> chars::byte_len(chars::trim(change.new_content)) >= 10
            &&& change.original_content matches Some(original) ==> original != change.new_content
            &&& unbalanced(change.new_content) <= 5
        } {
        assert forall|i: int| 0 <= i < changes.len() implies is_sound(#[trigger] changes[i]) by {}
    }
    if are_sound(changes) {
        assert forall|i: int| 0 <= i < changes.len() implies {
            let change = #[trigger] changes[i];
            &&& change.is_new_file ==> chars::byte_len(chars::trim(change.new_content)) >= 10
            &&& change.original_content matches Some(original) ==> original != change.new_content
            &&& unbalanced(change.new_content) <= 5
        } by {
            assert(is_sound(changes[i]));
        }
    }
}

impl<'a> ContributionGenerator<'a> {
    /// Whether the changes are sound.
    ///
    /// A new file has to hold at least [`MIN_NEW_FILE_BYTES`], an edited one
    /// has to differ from the original, and at most [`MAX_UNBALANCED`] brackets
    /// may be unbalanced.
    pub fn validate_changes(&self, changes: &[FileChange]) -> (r: bool)
        ensures
            r == are_sound(change_views(changes@)),
    {
        let ghost all = change_views(changes@);
        if changes.len() == 0 {
            return false;
        }
        let mut i: usize = 0;
        while i < changes.len()
            invariant
                i <= changes@.len(),
                all == change_views(changes@),
                all.len() > 0,
                forall|k: int| 0 <= k < i ==> is_sound(#[trigger] all[k]),
            decreases changes.len() - i,
        {
            let change = &changes[i];
            let content = change.new_content.as_str();
            assert(all[i as int] == change@);
            if change.is_new_file && text::byte_len(text::trim(content).as_str())
                < MIN_NEW_FILE_BYTES {
                return false;
            }
            if let Some(original) = &change.original_content {
                if text::same(content, original.as_str()) {
                    return false;
                }
            }
            if Self::count_unbalanced_brackets(content) > MAX_UNBALANCED {
                return false;
            }
            i += 1;
        }
        true
    }
}

} // verus!
