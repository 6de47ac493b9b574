//! Laws on the versions that are loaded from Syncthing's answer.

use serde_json::Value;
use vstd::prelude::*;

use crate::commands::instants;
use crate::commands::versions;
use crate::commands::versions::{Files, Version, VersionView};
use crate::json;
use crate::json::Json;
use crate::laws::archive;
use crate::laws::documents;
use crate::text;

verus! {

/// Some item of the list has a time.
pub open spec fn has_a_version(items: Seq<Json>) -> bool {
    exists|k: int|
        0 <= k < items.len() && archive::text_at(#[trigger] items[k], "versionTime"@) is Some
}

proof fn lemma_versions_in(items: Seq<Json>)
    ensures
        versions::versions_in(items).len() > 0 <==> has_a_version(items),
    decreases items.len(),
{
    if items.len() > 0 {
        let front = items.drop_last();
        lemma_versions_in(front);
        if has_a_version(front) {
            let k = choose|k: int|
                0 <= k < front.len() && archive::text_at(#[trigger] front[k], "versionTime"@)
                    is Some;
            assert(items[k] == front[k]);
        }
        if has_a_version(items) {
            let k = choose|k: int|
                0 <= k < items.len() && archive::text_at(#[trigger] items[k], "versionTime"@)
                    is Some;
            if k < front.len() {
                assert(front[k] == items[k]);
            }
        }
        if archive::text_at(items.last(), "versionTime"@) is Some {
            assert(archive::text_at(items[items.len() - 1], "versionTime"@) is Some);
        }
    }
}

/// What is loaded has a file for a path exactly where the answer has a list under it with an
/// item that has a time.
pub proof fn every_file_with_versions_is_loaded(raw: &Value, files: Files, path: Seq<char>)
    requires
        call_ensures(versions::load_versions, (raw,), files),
    ensures
        (exists|i: int| 0 <= i < files@.len() && (#[trigger] files@[i]).path == path)
            <==> documents::has_array(json::json(*raw), path) && has_a_version(
            documents::array_at(json::json(*raw), path),
        ),
{
    let answer = json::json(*raw);
    lemma_versions_in(documents::array_at(answer, path));
    assert(versions::versions_of(answer, path).len() > 0 <==> versions::has_path(files@, path));
    if versions::has_path(files@, path) {
        let i = choose|i: int| 0 <= i < files@.len() && #[trigger] files@[i].path == path;
        assert(files@[i].path == path);
    }
}

/// A file that is loaded has every version of its list, and no other.
pub proof fn every_version_is_loaded(raw: &Value, files: Files, i: int)
    requires
        call_ensures(versions::load_versions, (raw,), files),
        0 <= i < files@.len(),
    ensures
        documents::has_array(json::json(*raw), files@[i].path),
        files@[i].versions.to_multiset() == versions::versions_in(
            documents::array_at(json::json(*raw), files@[i].path),
        ).to_multiset(),
        files@[i].versions.len() > 0,
{
    let answer = json::json(*raw);
    let path = files@[i].path;
    assert(versions::has_path(files@, path));
    assert(versions::versions_of(answer, path).len() > 0);
    archive::ordering_keeps_every_version(
        files@[i].versions,
        versions::versions_of(answer, path),
    );
}

/// The files that are loaded come by their paths, and each path comes once.
pub proof fn loaded_files_come_by_their_paths(raw: &Value, files: Files, i: int, j: int)
    requires
        call_ensures(versions::load_versions, (raw,), files),
        0 <= i < j < files@.len(),
    ensures
        text::text_before(files@[i].path, files@[j].path),
        files@[i].path != files@[j].path,
{
    assert(files.wf());
    assert(versions::ordered(files@));
    assert(text::text_before(files@[i].path, files@[j].path));
    text::text_order_is_total(files@[i].path, files@[j].path);
}

/// The first of the versions of a loaded file is the newest: where all its tags name
/// instants, no other names a later one.
pub proof fn the_newest_version_is_loaded_first(raw: &Value, files: Files, i: int, k: int)
    requires
        call_ensures(versions::load_versions, (raw,), files),
        0 <= i < files@.len(),
        0 <= k < files@[i].versions.len(),
        forall|j: int|
            0 <= j < files@[i].versions.len() ==> instants::instant(
                (#[trigger] files@[i].versions[j]).tag,
            ) is Some,
    ensures
        !instants::earlier(
            instants::instant(files@[i].versions[0].tag)->0,
            instants::instant(files@[i].versions[k].tag)->0,
        ),
{
    let vs = files@[i].versions;
    let given = versions::versions_of(json::json(*raw), files@[i].path);
    archive::ordering_keeps_every_version(vs, given);
    broadcast use vstd::seq_lib::group_to_multiset_ensures;

    assert forall|j: int| 0 <= j < given.len() implies instants::instant(
        (#[trigger] given[j]).tag,
    ) is Some by {
        assert(given.contains(given[j]));
        assert(given.to_multiset().count(given[j]) > 0);
        assert(vs.to_multiset().count(given[j]) > 0);
        assert(vs.contains(given[j]));
        let m = choose|m: int| 0 <= m < vs.len() && vs[m] == given[j];
        assert(instants::instant(vs[m].tag) is Some);
    }
    if 0 < k {
        archive::versions_come_newest_first(vs, given, 0, k);
    } else {
        instants::instants_are_in_order(
            instants::instant(vs[0].tag)->0,
            instants::instant(vs[0].tag)->0,
        );
    }
}

/// What is read of a list has every version that its items describe, and no other.
pub proof fn every_version_is_read(items: &Vec<Value>, r: Vec<Version>)
    requires
        call_ensures(versions::read_versions, (items,), r),
    ensures
        versions::version_views(r@).to_multiset() == versions::versions_in(
            json::jsons(items@),
        ).to_multiset(),
        r@.len() == versions::version_views(r@).len(),
        forall|i: int|
            0 <= i < r@.len() ==> (#[trigger] versions::version_views(r@)[i]).tag == r@[i].tag@
                && versions::version_views(r@)[i].size == r@[i].size,
        json::jsons(items@).len() == items@.len(),
        forall|i: int|
            0 <= i < items@.len() ==> #[trigger] json::jsons(items@)[i] == json::json(items@[i]),
{
    archive::ordering_keeps_every_version(
        versions::version_views(r@),
        versions::versions_in(json::jsons(items@)),
    );
}

/// A file that is put in is there with its versions, in place of one with its path, and the
/// others stay.
pub proof fn what_is_put_in_is_there(
    before: Seq<versions::FileView>,
    after: Seq<versions::FileView>,
    path: Seq<char>,
    given: Seq<VersionView>,
    i: int,
)
    requires
        versions::ordered(before),
        versions::ordered(after),
        versions::by_path(after) == versions::by_path(before).insert(path, given),
        0 <= i < after.len(),
    ensures
        after[i].path == path ==> after[i].versions == given,
        after[i].path != path ==> exists|k: int|
            0 <= k < before.len() && #[trigger] before[k].path == after[i].path
                && before[k].versions == after[i].versions,
{
    archive::a_path_holds_its_file(after, i, path);
    if after[i].path != path {
        assert(versions::by_path(before).contains_key(after[i].path));
        let k = choose|k: int| 0 <= k < before.len() && #[trigger] before[k].path == after[i].path;
        archive::a_path_holds_its_file(before, k, path);
        assert(before[k].path == after[i].path);
    }
}

} // verus!
