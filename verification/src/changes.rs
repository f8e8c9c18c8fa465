//! Reading the changes that a reply asks for.

use vstd::prelude::*;
use crate::chars;
use crate::edits::single_edit;
use crate::extract::{
    closes_at, depth, extracted, in_string, is_value_end, law_bare_value_extracted,
    law_json_fence_extracted, law_nothing_extracted_without_brackets, opens_at, CHANGES_ANCHOR,
};
use crate::generator::ContributionGenerator;
use crate::json::{json_views, lemma_view, member, JsonValue, JsonView};
use crate::models::{
    change_views, lookup, ChangeView, FileChange, Files, RepoContext,
};
use crate::outside::parsed_json;
use crate::patterns::{json_fence, json_mark, plain_fence, ticks};

verus! {

/// The member `key` where it is a string, else nothing.
pub open spec fn text_member(item: JsonView, key: Seq<char>) -> Seq<char> {
    match item.get_str(key) {
        Some(s) => s,
        None => Seq::empty(),
    }
}

/// `content` after the edits, and how many of them found their place. An edit
/// without a search text counts for nothing, and so does one whose search text
/// is not found.
pub open spec fn edited(content: Seq<char>, edits: Seq<JsonView>) -> (Seq<char>, nat)
    decreases edits.len(),
{
    if edits.len() == 0 {
        (content, 0)
    } else {
        let (text, applied) = edited(content, edits.drop_last());
        let search = text_member(edits.last(), "search"@);
        let replace = text_member(edits.last(), "replace"@);
        if search.len() == 0 {
            (text, applied)
        } else {
            match single_edit(text, search, replace) {
                Some(updated) => (updated, applied + 1),
                None => (text, applied),
            }
        }
    }
}

/// The change that one item of the list asks for, if it can be made: edits of
/// a known file, of which at least one finds its place, or a full content.
pub open spec fn item_change(item: JsonView, files: Files) -> Option<ChangeView> {
    match item.get_str("path"@) {
        None => None,
        Some(path) => match item.get_array("edits"@) {
            Some(edits) => match lookup(files, path) {
                None => None,
                Some(original) => {
                    let (text, applied) = edited(original, edits);
                    if applied == 0 {
                        None
                    } else {
                        Some(
                            ChangeView {
                                path,
                                original_content: Some(original),
                                new_content: text,
                                is_new_file: false,
                                is_deleted: false,
                            },
                        )
                    }
                },
            },
            None => match item.get_str("content"@) {
                None => None,
                Some(content) => Some(
                    ChangeView {
                        path,
                        original_content: None,
                        new_content: content,
                        is_new_file: true,
                        is_deleted: false,
                    },
                ),
            },
        },
    }
}

/// The changes that the items ask for, those that can be made.
pub open spec fn item_changes(items: Seq<JsonView>, files: Files) -> Seq<ChangeView>
    decreases items.len(),
{
    if items.len() == 0 {
        Seq::empty()
    } else {
        let before = item_changes(items.drop_last(), files);
        match item_change(items.last(), files) {
            Some(change) => before.push(change),
            None => before,
        }
    }
}

/// The first `max` changes.
pub open spec fn limited(changes: Seq<ChangeView>, max: int) -> Seq<ChangeView> {
    if changes.len() > max {
        changes.take(max)
    } else {
        changes
    }
}

/// The change that one item of a bare list gives, if it has a path and a
/// content.
pub open spec fn bare_change(item: JsonView) -> Option<ChangeView> {
    match (item.get_str("path"@), item.get_str("new_content"@)) {
        (Some(path), Some(new_content)) => Some(
            ChangeView {
                path,
                original_content: None,
                new_content,
                is_new_file: item.get_bool("is_new_file"@) == Some(true),
                is_deleted: false,
            },
        ),
        _ => None,
    }
}

/// The changes that the items of a bare list give.
pub open spec fn bare_changes(items: Seq<JsonView>) -> Seq<ChangeView>
    decreases items.len(),
{
    if items.len() == 0 {
        Seq::empty()
    } else {
        let before = bare_changes(items.drop_last());
        match bare_change(items.last()) {
            Some(change) => before.push(change),
            None => before,
        }
    }
}

/// The changes that a document asks for: an object with a list under
/// `changes`, or a bare list. None where there is not a single one.
pub open spec fn document_changes(data: JsonView, files: Files, max: int) -> Option<
    Seq<ChangeView>,
> {
    let wrapped = match data.get_array("changes"@) {
        Some(items) => limited(item_changes(items, files), max),
        None => Seq::empty(),
    };
    let bare = match data {
        JsonView::Array(items) => bare_changes(items),
        _ => Seq::empty(),
    };
    if wrapped.len() > 0 {
        Some(wrapped)
    } else if bare.len() > 0 {
        Some(bare)
    } else {
        None
    }
}

/// The changes that a reply asks for.
pub open spec fn reply_changes(reply: Seq<char>, files: Files, max: int) -> Option<
    Seq<ChangeView>,
> {
    match extracted(reply) {
        Some(json) => match parsed_json(json) {
            Some(data) => document_changes(data, files, max),
            None => None,
        },
        None => None,
    }
}

/// The document that asks for one item.
pub open spec fn one_item(item: JsonView) -> JsonView {
    JsonView::Object(seq!["changes"@], seq![JsonView::Array(seq![item])])
}

/// The item that asks for one edit of the file at `path`.
pub open spec fn one_edit(path: Seq<char>, search: Seq<char>, replace: Seq<char>) -> JsonView {
    let edit = JsonView::Object(
        seq!["search"@, "replace"@],
        seq![JsonView::Str(search), JsonView::Str(replace)],
    );
    JsonView::Object(
        seq!["path"@, "edits"@],
        seq![JsonView::Str(path), JsonView::Array(seq![edit])],
    )
}

/// The item that asks for a new file.
pub open spec fn one_file(path: Seq<char>, content: Seq<char>) -> JsonView {
    JsonView::Object(
        seq!["path"@, "content"@],
        seq![JsonView::Str(path), JsonView::Str(content)],
    )
}

/// The members of an object of two.
proof fn lemma_two_members(
    k: Seq<char>,
    l: Seq<char>,
    x: JsonView,
    y: JsonView,
    key: Seq<char>,
)
    ensures
        JsonView::Object(seq![k, l], seq![x, y]).get(key) == (if key == k {
            Some(x)
        } else if key == l {
            Some(y)
        } else {
            None
        }),
{
    let names = seq![k, l];
    let values = seq![x, y];
    assert(names.drop_first() =~= seq![l]);
    assert(values.drop_first() =~= seq![y]);
    assert(names.drop_first().drop_first() =~= Seq::empty());
    assert(member(names.drop_first(), values.drop_first(), key) == (if key == l {
        Some(y)
    } else {
        None
    })) by {
        assert(member(names.drop_first().drop_first(), values.drop_first().drop_first(), key)
            is None);
    }
}

/// What a document that asks for one item gives.
proof fn lemma_one_item(item: JsonView, files: Files, max: int)
    requires
        max >= 1,
    ensures
        document_changes(one_item(item), files, max) == (match item_change(item, files) {
            Some(change) => Some(seq![change]),
            None => None,
        }),
{
    let data = one_item(item);
    let items = seq![item];
    assert(data.get_array("changes"@) == Some(items));
    assert(items.drop_last() =~= Seq::empty());
    assert(item_changes(items.drop_last(), files) =~= Seq::empty());
    if let Some(change) = item_change(item, files) {
        assert(item_changes(items, files) =~= seq![change]);
    }
}

/// One edit of a known file gives one change, which is the edited file; it gives
/// none where the edit finds no place or the file is not known.
pub proof fn law_one_edit_gives_one_change(
    files: Files,
    path: Seq<char>,
    search: Seq<char>,
    replace: Seq<char>,
    max: int,
)
    requires
        max >= 1,
        search.len() > 0,
    ensures
        document_changes(one_item(one_edit(path, search, replace)), files, max) == (match lookup(
            files,
            path,
        ) {
            None => None,
            Some(original) => match single_edit(original, search, replace) {
                None => None,
                Some(text) => Some(
                    seq![
                        ChangeView {
                            path,
                            original_content: Some(original),
                            new_content: text,
                            is_new_file: false,
                            is_deleted: false,
                        },
                    ],
                ),
            },
        }),
{
    reveal_strlit("path");
    reveal_strlit("edits");
    reveal_strlit("search");
    reveal_strlit("replace");
    let edit = JsonView::Object(
        seq!["search"@, "replace"@],
        seq![JsonView::Str(search), JsonView::Str(replace)],
    );
    let edits = seq![edit];
    let item = one_edit(path, search, replace);
    lemma_two_members("path"@, "edits"@, JsonView::Str(path), JsonView::Array(edits), "path"@);
    lemma_two_members("path"@, "edits"@, JsonView::Str(path), JsonView::Array(edits), "edits"@);
    let s = JsonView::Str(search);
    let r = JsonView::Str(replace);
    lemma_two_members("search"@, "replace"@, s, r, "search"@);
    lemma_two_members("search"@, "replace"@, s, r, "replace"@);
    assert("path"@.len() != "edits"@.len());
    assert("search"@.len() != "replace"@.len());
    assert(edits.drop_last() =~= Seq::empty());
    if let Some(original) = lookup(files, path) {
        assert(edited(original, edits.drop_last()) == (original, 0nat));
        assert(edited(original, edits) == (match single_edit(original, search, replace) {
            Some(text) => (text, 1nat),
            None => (original, 0nat),
        }));
    }
    lemma_one_item(item, files, max);
}

/// Edits are made one after the other, each to what the edits before it left.
/// An edit without a search text, and one that finds no place, change neither
/// the text nor the number of edits made; every other one counts once.
pub proof fn law_edits_one_by_one(content: Seq<char>, edits: Seq<JsonView>, edit: JsonView)
    ensures
        ({
            let (text, applied) = edited(content, edits);
            let replace = match edit.get_str("replace"@) {
                Some(replace) => replace,
                None => Seq::empty(),
            };
            edited(content, edits.push(edit)) == (match edit.get_str("search"@) {
                Some(search) => if search.len() == 0 {
                    (text, applied)
                } else {
                    match single_edit(text, search, replace) {
                        Some(updated) => (updated, (applied + 1) as nat),
                        None => (text, applied),
                    }
                },
                None => (text, applied),
            })
        }),
        edited(content, Seq::empty()) == (content, 0nat),
{
    assert(edits.push(edit).drop_last() =~= edits);
}

/// Making the edits of two lists is making those of the first, and then those of
/// the second to the outcome.
pub proof fn law_edits_of_both(content: Seq<char>, a: Seq<JsonView>, b: Seq<JsonView>)
    ensures
        edited(content, a + b) == (
            edited(edited(content, a).0, b).0,
            edited(content, a).1 + edited(edited(content, a).0, b).1,
        ),
    decreases b.len(),
{
    if b.len() == 0 {
        assert(a + b =~= a);
    } else {
        law_edits_of_both(content, a, b.drop_last());
        assert((a + b).drop_last() =~= a + b.drop_last());
        assert((a + b).last() == b.last());
    }
}

/// The item that asks for edits of the file at `path`.
pub open spec fn edits_item(path: Seq<char>, edits: Seq<JsonView>) -> JsonView {
    JsonView::Object(seq!["path"@, "edits"@], seq![JsonView::Str(path), JsonView::Array(edits)])
}

/// An item with edits changes the file that is known at its path, if at least
/// one edit finds its place; whatever else the item holds does not matter.
pub proof fn law_item_with_edits(
    item: JsonView,
    path: Seq<char>,
    edits: Seq<JsonView>,
    files: Files,
)
    requires
        item.get_str("path"@) == Some(path),
        item.get_array("edits"@) == Some(edits),
    ensures
        item_change(item, files) == item_change(edits_item(path, edits), files),
        lookup(files, path) is None ==> item_change(item, files) is None,
        lookup(files, path) matches Some(original) ==> {
            let (text, applied) = edited(original, edits);
            &&& item_change(item, files) is Some <==> applied > 0
            &&& item_change(item, files) matches Some(change) ==> change.path == path
                && change.original_content == Some(original) && change.new_content == text
                && !change.is_new_file && !change.is_deleted
        },
{
    reveal_strlit("path");
    reveal_strlit("edits");
    assert("path"@.len() != "edits"@.len());
    lemma_two_members("path"@, "edits"@, JsonView::Str(path), JsonView::Array(edits), "path"@);
    lemma_two_members("path"@, "edits"@, JsonView::Str(path), JsonView::Array(edits), "edits"@);
}

/// An item without edits but with a content makes a new file of it, whatever
/// else it holds; one with neither, and one without a path, makes nothing.
pub proof fn law_item_without_edits(item: JsonView, files: Files)
    ensures
        item.get_str("path"@) is None ==> item_change(item, files) is None,
        item.get_str("path"@) matches Some(path) ==> item.get_array("edits"@) is None
            ==> match item.get_str("content"@) {
            Some(content) => item_change(item, files) matches Some(change) && change.path == path
                && change.original_content is None && change.new_content == content
                && change.is_new_file && !change.is_deleted,
            None => item_change(item, files) is None,
        },
{
}

/// The changes of two lists of items are those of the first and then those of
/// the second, all of them made to the files as they were.
pub proof fn law_items_of_both(a: Seq<JsonView>, b: Seq<JsonView>, files: Files)
    ensures
        item_changes(a + b, files) == item_changes(a, files) + item_changes(b, files),
        a.len() == 1 ==> item_changes(a, files) == (match item_change(a[0], files) {
            Some(change) => seq![change],
            None => Seq::empty(),
        }),
        item_changes(Seq::empty(), files) == Seq::<ChangeView>::empty(),
    decreases b.len(),
{
    if a.len() == 1 {
        assert(a.drop_last() =~= Seq::empty());
        assert(item_changes(a.drop_last(), files) =~= Seq::empty());
        if let Some(change) = item_change(a[0], files) {
            assert(item_changes(a, files) =~= seq![change]);
        }
    }
    if b.len() == 0 {
        assert(a + b =~= a);
        assert(item_changes(a, files) + item_changes(b, files) =~= item_changes(a, files));
    } else {
        law_items_of_both(a, b.drop_last(), files);
        assert((a + b).drop_last() =~= a + b.drop_last());
        assert((a + b).last() == b.last());
        assert(item_changes(a + b, files) =~= item_changes(a, files) + item_changes(b, files));
    }
}

/// The changes of two bare lists are those of the first and then those of the
/// second; an item counts where it has a path and a new content, and is a new
/// file where it says so.
pub proof fn law_bare_items_of_both(a: Seq<JsonView>, b: Seq<JsonView>)
    ensures
        bare_changes(a + b) == bare_changes(a) + bare_changes(b),
        a.len() == 1 ==> match (a[0].get_str("path"@), a[0].get_str("new_content"@)) {
            (Some(path), Some(new_content)) => bare_changes(a) == seq![
                ChangeView {
                    path,
                    original_content: None,
                    new_content,
                    is_new_file: a[0].get_bool("is_new_file"@) == Some(true),
                    is_deleted: false,
                },
            ],
            _ => bare_changes(a).len() == 0,
        },
        bare_changes(Seq::empty()) == Seq::<ChangeView>::empty(),
    decreases b.len(),
{
    if a.len() == 1 {
        assert(a.drop_last() =~= Seq::empty());
        assert(bare_changes(a.drop_last()) =~= Seq::empty());
        if let Some(change) = bare_change(a[0]) {
            assert(bare_changes(a) =~= seq![change]);
        }
    }
    if b.len() == 0 {
        assert(a + b =~= a);
        assert(bare_changes(a) + bare_changes(b) =~= bare_changes(a));
    } else {
        law_bare_items_of_both(a, b.drop_last());
        assert((a + b).drop_last() =~= a + b.drop_last());
        assert((a + b).last() == b.last());
        assert(bare_changes(a + b) =~= bare_changes(a) + bare_changes(b));
    }
}

/// Of a document with a list of changes the first ones come, in order, as many
/// as the limit admits; a bare list comes whole; any other document, and one of
/// which no change is left, gives nothing.
pub proof fn law_document_gives_first_changes(data: JsonView, files: Files, max: int)
    requires
        max >= 0,
    ensures
        data.get_array("changes"@) matches Some(items) ==> {
            let all = item_changes(items, files);
            let n = if all.len() < max {
                all.len() as int
            } else {
                max
            };
            document_changes(data, files, max) == (if n == 0 {
                None
            } else {
                Some(all.take(n))
            })
        },
        data matches JsonView::Array(items) ==> document_changes(data, files, max) == (
        if bare_changes(items).len() == 0 {
            None
        } else {
            Some(bare_changes(items))
        }),
        data.get_array("changes"@) is None && !(data is Array) ==> document_changes(
            data,
            files,
            max,
        ) is None,
{
    if let Some(items) = data.get_array("changes"@) {
        let all = item_changes(items, files);
        assert(all.take(all.len() as int) =~= all);
    }
}

/// An edit that finds no place in what the edits before it made of the file
/// changes nothing in what the reply asks for.
pub proof fn law_missed_edit_changes_nothing(
    files: Files,
    path: Seq<char>,
    edits: Seq<JsonView>,
    edit: JsonView,
    max: int,
)
    requires
        max >= 1,
        lookup(files, path) matches Some(original) ==> edit.get_str("search"@) matches Some(search)
            ==> search.len() == 0 || single_edit(
            edited(original, edits).0,
            search,
            match edit.get_str("replace"@) {
                Some(replace) => replace,
                None => Seq::empty(),
            },
        ) is None,
    ensures
        document_changes(one_item(edits_item(path, edits.push(edit))), files, max)
            == document_changes(one_item(edits_item(path, edits)), files, max),
{
    reveal_strlit("path");
    reveal_strlit("edits");
    assert("path"@.len() != "edits"@.len());
    let more = edits.push(edit);
    lemma_two_members("path"@, "edits"@, JsonView::Str(path), JsonView::Array(edits), "path"@);
    lemma_two_members("path"@, "edits"@, JsonView::Str(path), JsonView::Array(edits), "edits"@);
    lemma_two_members("path"@, "edits"@, JsonView::Str(path), JsonView::Array(more), "path"@);
    lemma_two_members("path"@, "edits"@, JsonView::Str(path), JsonView::Array(more), "edits"@);
    law_item_with_edits(edits_item(path, edits), path, edits, files);
    law_item_with_edits(edits_item(path, more), path, more, files);
    lemma_one_item(edits_item(path, edits), files, max);
    lemma_one_item(edits_item(path, more), files, max);
    if let Some(original) = lookup(files, path) {
        law_edits_one_by_one(original, edits, edit);
        assert(item_change(edits_item(path, more), files) == item_change(
            edits_item(path, edits),
            files,
        ));
    }
}

/// A full content gives one change, which makes a new file of that content.
pub proof fn law_one_content_gives_new_file(
    files: Files,
    path: Seq<char>,
    content: Seq<char>,
    max: int,
)
    requires
        max >= 1,
    ensures
        document_changes(one_item(one_file(path, content)), files, max) == Some(
            seq![
                ChangeView {
                    path,
                    original_content: None,
                    new_content: content,
                    is_new_file: true,
                    is_deleted: false,
                },
            ],
        ),
{
    reveal_strlit("path");
    reveal_strlit("edits");
    reveal_strlit("content");
    let item = one_file(path, content);
    let p = JsonView::Str(path);
    let c = JsonView::Str(content);
    lemma_two_members("path"@, "content"@, p, c, "path"@);
    lemma_two_members("path"@, "content"@, p, c, "content"@);
    lemma_two_members("path"@, "content"@, p, c, "edits"@);
    assert("path"@.len() != "content"@.len());
    assert("path"@.len() != "edits"@.len());
    assert("content"@.len() != "edits"@.len());
    lemma_one_item(item, files, max);
}

/// Of a document with a list of changes no more changes come than the limit,
/// each of which makes a new file or edits a file that is known, with the
/// content that it is known by.
pub proof fn law_changes_limited_and_grounded(data: JsonView, files: Files, max: int)
    requires
        max >= 0,
        data.get_array("changes"@) is Some,
        document_changes(data, files, max) is Some,
    ensures
        0 < document_changes(data, files, max).unwrap().len() <= max,
        forall|i: int|
            0 <= i < document_changes(data, files, max).unwrap().len() ==> is_grounded(
                #[trigger] document_changes(data, files, max).unwrap()[i],
                files,
            ),
{
    lemma_item_changes_grounded(data.get_array("changes"@).unwrap(), files);
}

/// The change makes a new file, or edits a known one.
pub open spec fn is_grounded(change: ChangeView, files: Files) -> bool {
    &&& !change.is_deleted
    &&& change.is_new_file == change.original_content is None
    &&& change.original_content matches Some(original) ==> lookup(files, change.path) == Some(
        original,
    )
}

proof fn lemma_item_changes_grounded(items: Seq<JsonView>, files: Files)
    ensures
        forall|i: int|
            0 <= i < item_changes(items, files).len() ==> is_grounded(
                #[trigger] item_changes(items, files)[i],
                files,
            ),
    decreases items.len(),
{
    if items.len() > 0 {
        lemma_item_changes_grounded(items.drop_last(), files);
        let before = item_changes(items.drop_last(), files);
        let all = item_changes(items, files);
        assert forall|i: int| 0 <= i < all.len() implies is_grounded(#[trigger] all[i], files) by {
            if i < before.len() {
                assert(all[i] == before[i]);
            } else {
                assert(all[i] == item_change(items.last(), files).unwrap());
            }
        }
    }
}

/// A reply that is a bare value asks for the same changes as one in which the
/// value stands between fences marked as JSON, with whatever else around them.
pub proof fn law_fences_do_not_matter(
    before: Seq<char>,
    value: Seq<char>,
    after: Seq<char>,
    files: Files,
    max: int,
)
    requires
        value.len() > 0,
        value[0] == '{' || value[0] == '[',
        is_value_end(value, value.len() as int),
        chars::find(value, CHANGES_ANCHOR@) is None || chars::find(value, CHANGES_ANCHOR@) == Some(
            0int,
        ),
        json_fence(value) is None,
        plain_fence(value) is None,
        forall|c: int, p: int| !closes_at(value, c, p),
        forall|p: int, o: int| !opens_at(before, json_mark(), p, o),
    ensures
        reply_changes(
            before + json_mark() + seq!['\n'] + value + seq!['\n'] + ticks() + after,
            files,
            max,
        ) == reply_changes(value, files, max),
        reply_changes(value, files, max) == (match parsed_json(value) {
            Some(data) => document_changes(data, files, max),
            None => None,
        }),
{
    let n = value.len() as int;
    let none = Seq::<char>::empty();
    assert(none + value + none =~= value);
    law_bare_value_extracted(none, value, none);
    assert(depth(value, 0) == 0);
    assert(depth(value, 1) == 1) by {
        assert(!in_string(value, 0));
        assert(!in_string(value, 1));
    }
    assert(depth(value, n - 1) != 0);
    assert(!chars::is_white_space(value[n - 1]));
    law_json_fence_extracted(before, value, after);
    chars::lemma_trim_exact(value, 0, n - 1);
    assert(value.subrange(0, n) =~= value);
}

/// A reply asks for what the JSON in it asks for and for nothing else: replies
/// with the same JSON ask for the same, and one whose JSON does not parse asks
/// for nothing.
pub proof fn law_reply_asks_what_its_json_asks(
    reply: Seq<char>,
    other: Seq<char>,
    files: Files,
    max: int,
)
    ensures
        extracted(reply) == extracted(other) ==> reply_changes(reply, files, max) == reply_changes(
            other,
            files,
            max,
        ),
        extracted(reply) is None ==> reply_changes(reply, files, max) is None,
        extracted(reply) matches Some(json) ==> {
            &&& parsed_json(json) is None ==> reply_changes(reply, files, max) is None
            &&& parsed_json(json) matches Some(data) ==> reply_changes(reply, files, max)
                == document_changes(data, files, max)
        },
{
}

/// A reply without brackets asks for no changes, whatever else it says.
pub proof fn law_prose_asks_for_nothing(reply: Seq<char>, files: Files, max: int)
    requires
        !reply.contains('{'),
        !reply.contains('['),
        json_fence(reply) is None,
        plain_fence(reply) is None,
    ensures
        reply_changes(reply, files, max) is None,
{
    law_nothing_extracted_without_brackets(reply);
}

/// A copy of a text, or no text.
fn text_or_empty(s: Option<&String>) -> (r: String)
    ensures
        r@ == (match s {
            Some(t) => t@,
            None => Seq::empty(),
        }),
{
    match s {
        Some(t) => t.clone(),
        None => String::new(),
    }
}

impl<'a> ContributionGenerator<'a> {
    /// `content` after the edits, and how many of them found their place.
    fn apply_edits(content: &str, edits: &[JsonValue]) -> (r: (String, usize))
        ensures
            (r.0@, r.1 as nat) == edited(content@, json_views(edits@)),
            r.1 <= edits@.len(),
    {
        let ghost all = json_views(edits@);
        let mut text = content.to_owned();
        let mut applied: usize = 0;
        let mut i: usize = 0;
        assert(all.take(0) =~= Seq::empty());
        while i < edits.len()
            invariant
                i <= edits@.len(),
                all == json_views(edits@),
                (text@, applied as nat) == edited(content@, all.take(i as int)),
                applied <= i,
            decreases edits.len() - i,
        {
            let edit = &edits[i];
            assert(all.take(i + 1).drop_last() =~= all.take(i as int));
            assert(all.take(i + 1).last() == edit@);
            let search = text_or_empty(edit.get_str("search"));
            let replace = text_or_empty(edit.get_str("replace"));
            if !search.as_str().is_empty() {
                if let Some(updated) = Self::apply_single_edit(
                    text.as_str(),
                    search.as_str(),
                    replace.as_str(),
                ) {
                    text = updated;
                    applied += 1;
                }
            }
            i += 1;
        }
        assert(all.take(i as int) =~= all);
        (text, applied)
    }

    /// The change that one item asks for, if it can be made.
    fn change_of_item(item: &JsonValue, context: &RepoContext) -> (r: Option<FileChange>)
        ensures
            item_change(item@, context.relevant_files@) == (match r {
                Some(change) => Some(change@),
                None => None,
            }),
    {
        let path = match item.get_str("path") {
            Some(path) => path,
            None => {
                return None;
            },
        };
        if let Some(edits) = item.get_array("edits") {
            let original = match context.relevant_files.get(path.as_str()) {
                Some(original) => original,
                None => {
                    return None;
                },
            };
            let (new_content, applied) = Self::apply_edits(original.as_str(), edits.as_slice());
            if applied == 0 {
                return None;
            }
            Some(
                FileChange {
                    path: path.clone(),
                    original_content: Some(original.clone()),
                    new_content,
                    is_new_file: false,
                    is_deleted: false,
                },
            )
        } else if let Some(content) = item.get_str("content") {
            Some(
                FileChange {
                    path: path.clone(),
                    original_content: None,
                    new_content: content.clone(),
                    is_new_file: true,
                    is_deleted: false,
                },
            )
        } else {
            None
        }
    }

    /// The changes that the items of a list ask for, at most as many as one
    /// pull request may hold.
    ///
    /// An item with `edits` changes a file of `context`; an item with a
    /// `content` makes a new one. Items that can do neither are left out.
    pub fn apply_changes_from_json(&self, items: &[JsonValue], context: &RepoContext) -> (r: Vec<
        FileChange,
    >)
        ensures
            change_views(r@) == limited(
                item_changes(json_views(items@), context.relevant_files@),
                self.config.max_changes_per_pr as int,
            ),
    {
        let ghost all = json_views(items@);
        let ghost files = context.relevant_files@;
        let mut changes: Vec<FileChange> = Vec::new();
        let mut i: usize = 0;
        assert(all.take(0) =~= Seq::empty());
        assert(change_views(changes@) =~= Seq::empty());
        while i < items.len()
            invariant
                i <= items@.len(),
                all == json_views(items@),
                files == context.relevant_files@,
                change_views(changes@) == item_changes(all.take(i as int), files),
            decreases items.len() - i,
        {
            assert(all.take(i + 1).drop_last() =~= all.take(i as int));
            assert(all.take(i + 1).last() == items@[i as int]@);
            if let Some(change) = Self::change_of_item(&items[i], context) {
                let ghost early = changes@;
                changes.push(change);
                assert(change_views(changes@) =~= change_views(early).push(change@));
            }
            i += 1;
        }
        assert(all.take(i as int) =~= all);
        let max = self.config.max_changes_per_pr;
        if changes.len() > max {
            let ghost early = changes@;
            changes.truncate(max);
            assert(change_views(changes@) =~= change_views(early).take(max as int));
        }
        changes
    }

    /// The changes that a bare list gives: the items with a `path` and a
    /// `new_content`.
    pub fn parse_bare_array(items: &[JsonValue]) -> (r: Vec<FileChange>)
        ensures
            change_views(r@) == bare_changes(json_views(items@)),
    {
        let ghost all = json_views(items@);
        let mut changes: Vec<FileChange> = Vec::new();
        let mut i: usize = 0;
        assert(all.take(0) =~= Seq::empty());
        assert(change_views(changes@) =~= Seq::empty());
        while i < items.len()
            invariant
                i <= items@.len(),
                all == json_views(items@),
                change_views(changes@) == bare_changes(all.take(i as int)),
            decreases items.len() - i,
        {
            let item = &items[i];
            assert(all.take(i + 1).drop_last() =~= all.take(i as int));
            assert(all.take(i + 1).last() == item@);
            if let Some(path) = item.get_str("path") {
                if let Some(new_content) = item.get_str("new_content") {
                    let is_new_file = match item.get_bool("is_new_file") {
                        Some(is_new_file) => is_new_file,
                        None => false,
                    };
                    let change = FileChange {
                        path: path.clone(),
                        original_content: None,
                        new_content: new_content.clone(),
                        is_new_file,
                        is_deleted: false,
                    };
                    let ghost early = changes@;
                    changes.push(change);
                    assert(change_views(changes@) =~= change_views(early).push(change@));
                }
            }
            i += 1;
        }
        assert(all.take(i as int) =~= all);
        changes
    }

    /// The changes that a parsed document asks for, if there is at least one.
    pub fn changes_from_json(&self, data: &JsonValue, context: &RepoContext) -> (r: Option<
        Vec<FileChange>,
    >)
        ensures
            document_changes(
                data@,
                context.relevant_files@,
                self.config.max_changes_per_pr as int,
            ) == (match r {
                Some(changes) => Some(change_views(changes@)),
                None => None,
            }),
    {
        if let Some(items) = data.get_array("changes") {
            let changes = self.apply_changes_from_json(items.as_slice(), context);
            assert(change_views(changes@).len() == changes@.len());
            if changes.len() > 0 {
                return Some(changes);
            }
        }
        if let JsonValue::Array(items) = data {
            proof {
                lemma_view(*items, arbitrary());
            }
            let changes = Self::parse_bare_array(items.as_slice());
            assert(change_views(changes@).len() == changes@.len());
            if changes.len() > 0 {
                return Some(changes);
            }
        }
        None
    }

    /// The changes that a reply asks for, if there is at least one.
    ///
    /// The reply holds `{"changes": [..]}` with search/replace edits of known
    /// files or full contents of new ones, or a bare list of paths and contents.
    pub fn parse_changes(&self, response: &str, context: &RepoContext) -> (r: Option<
        Vec<FileChange>,
    >)
        ensures
            reply_changes(
                response@,
                context.relevant_files@,
                self.config.max_changes_per_pr as int,
            ) == (match r {
                Some(changes) => Some(change_views(changes@)),
                None => None,
            }),
    {
        let json_text = match Self::extract_json(response) {
            Some(json_text) => json_text,
            None => {
                return None;
            },
        };
        match JsonValue::parse(json_text.as_str()) {
            Some(data) => self.changes_from_json(&data, context),
            None => None,
        }
    }
}

} // verus!
