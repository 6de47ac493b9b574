//! The versions that Syncthing keeps of a folder's files: their tags, their order
//! and the files that have any.

use serde_json::Value;
use vstd::prelude::*;

use crate::commands::instants;
use crate::json;
use crate::json::Json;
use crate::text;

verus! {

/// The tag has the form `<date>T<time>`: 19 characters at least, the eleventh a `T`.
pub open spec fn is_stamp(tag: Seq<char>) -> bool {
    tag.len() >= 19 && tag[10] == 'T'
}

/// A stamp's first 19 characters with a blank for each `T`, any other tag verbatim.
pub open spec fn shown_time(tag: Seq<char>) -> Seq<char> {
    if is_stamp(tag) {
        text::replaced(tag.take(19), 'T', ' ')
    } else {
        tag
    }
}

/// An RFC3339 version tag as a plain local `YYYY-MM-DD HH:MM:SS`. The tag is
/// always `<date>T<time>` before its timezone offset, so the first 19 chars are
/// the wall-clock stamp; anything shorter is shown verbatim.
pub fn display_time(tag: &str) -> (r: String)
    ensures
        r@ == shown_time(tag@),
{
    let v = text::chars_of(tag);
    if v.len() >= 19 && v[10] == 'T' {
        let stamp = text::slice_text(&v, 0, 19);
        assert(stamp@ =~= tag@.take(19));
        text::replace_char(stamp.as_str(), 'T', ' ')
    } else {
        tag.to_owned()
    }
}

/// An RFC3339 tag is shown as its date and its time of day with a blank between them,
/// without what follows.
pub proof fn display_time_keeps_the_stamp(tag: Seq<char>)
    requires
        instants::instant(tag) is Some,
        tag[10] == 'T',
    ensures
        shown_time(tag) == tag.take(10).push(' ') + tag.subrange(11, 19),
{
    assert(instants::has_two_digits(tag, 0) && instants::has_two_digits(tag, 2));
    assert(shown_time(tag) =~= tag.take(10).push(' ') + tag.subrange(11, 19));
}

/// A tag of fewer than 19 characters is shown verbatim.
pub proof fn a_short_tag_is_shown_verbatim(tag: Seq<char>)
    requires
        tag.len() < 19,
    ensures
        shown_time(tag) == tag,
{
}

/// One archived version of a file.
#[derive(Debug)]
pub struct Version {
    /// RFC3339 tag Syncthing uses to identify the version on restore.
    pub tag: String,
    pub size: i64,
}

/// What a version holds.
pub struct VersionView {
    pub tag: Seq<char>,
    pub size: int,
}

impl View for Version {
    type V = VersionView;

    open spec fn view(&self) -> VersionView {
        VersionView { tag: self.tag@, size: self.size as int }
    }
}

/// What the versions of a list hold.
pub open spec fn version_views(vs: Seq<Version>) -> Seq<VersionView> {
    vs.map_values(|v: Version| v@)
}

/// A file with its archived versions.
#[derive(Debug)]
pub struct FileHistory {
    /// The path, relative to the folder.
    pub path: String,
    pub versions: Vec<Version>,
}

/// What a file's history holds.
pub struct FileView {
    pub path: Seq<char>,
    pub versions: Seq<VersionView>,
}

impl View for FileHistory {
    type V = FileView;

    open spec fn view(&self) -> FileView {
        FileView { path: self.path@, versions: version_views(self.versions@) }
    }
}

/// The files are in the order of their paths, each path once.
pub open spec fn ordered(fs: Seq<FileView>) -> bool {
    forall|i: int, j: int|
        0 <= i < j < fs.len() ==> text::text_before(#[trigger] fs[i].path, #[trigger] fs[j].path)
}

/// Some file of the list has the path.
pub open spec fn has_path(fs: Seq<FileView>, path: Seq<char>) -> bool {
    exists|i: int| 0 <= i < fs.len() && #[trigger] fs[i].path == path
}

/// Which versions each path has.
pub open spec fn by_path(fs: Seq<FileView>) -> Map<Seq<char>, Seq<VersionView>> {
    Map::new(
        |path: Seq<char>| has_path(fs, path),
        |path: Seq<char>|
            fs[choose|i: int| 0 <= i < fs.len() && #[trigger] fs[i].path == path].versions,
    )
}

/// The files of a folder that have archived versions, in the order of their paths.
#[derive(Debug)]
pub struct Files {
    entries: Vec<FileHistory>,
}

impl View for Files {
    type V = Seq<FileView>;

    closed spec fn view(&self) -> Seq<FileView> {
        self.entries@.map_values(|f: FileHistory| f@)
    }
}

/// In an ordered list each file's versions are found under its path.
pub(crate) proof fn lemma_by_path(fs: Seq<FileView>, i: int)
    requires
        ordered(fs),
        0 <= i < fs.len(),
    ensures
        by_path(fs).dom().contains(fs[i].path),
        by_path(fs)[fs[i].path] == fs[i].versions,
{
    let path = fs[i].path;
    assert(has_path(fs, path));
    let j = choose|j: int| 0 <= j < fs.len() && #[trigger] fs[j].path == path;
    if i < j {
        text::text_order_is_total(fs[i].path, fs[j].path);
    } else if j < i {
        text::text_order_is_total(fs[j].path, fs[i].path);
    }
}

/// In an ordered list no two files have the same path.
pub proof fn paths_are_distinct(fs: Seq<FileView>, i: int, j: int)
    requires
        ordered(fs),
        0 <= i < fs.len(),
        0 <= j < fs.len(),
        fs[i].path == fs[j].path,
    ensures
        i == j,
{
    if i < j {
        text::text_order_is_total(fs[i].path, fs[j].path);
    } else if j < i {
        text::text_order_is_total(fs[j].path, fs[i].path);
    }
}

/// Two ordered lists in which each path has the same versions are the same list.
pub proof fn order_fixes_the_list(a: Seq<FileView>, b: Seq<FileView>)
    requires
        ordered(a),
        ordered(b),
        by_path(a) == by_path(b),
    ensures
        a == b,
    decreases a.len(),
{
    if a.len() == 0 {
        if b.len() > 0 {
            lemma_by_path(b, 0);
            assert(by_path(a).dom().contains(b[0].path));
        }
        assert(a =~= b);
    } else {
        lemma_by_path(a, a.len() - 1);
        assert(by_path(b).dom().contains(a.last().path));
        let k = choose|k: int| 0 <= k < b.len() && #[trigger] b[k].path == a.last().path;
        lemma_by_path(b, k);
        lemma_by_path(b, b.len() - 1);
        assert(by_path(a).dom().contains(b.last().path));
        let m = choose|m: int| 0 <= m < a.len() && #[trigger] a[m].path == b.last().path;
        if k < b.len() - 1 {
            assert(text::text_before(b[k].path, b[b.len() - 1].path));
            if m < a.len() - 1 {
                assert(text::text_before(a[m].path, a[a.len() - 1].path));
            }
            text::text_order_is_total(a.last().path, b.last().path);
        }
        assert(a.last() == b.last());
        let x = a.drop_last();
        let y = b.drop_last();
        assert forall|i: int, j: int| 0 <= i < j < x.len() implies text::text_before(
            #[trigger] x[i].path,
            #[trigger] x[j].path,
        ) by {
            assert(text::text_before(a[i].path, a[j].path));
        }
        assert forall|i: int, j: int| 0 <= i < j < y.len() implies text::text_before(
            #[trigger] y[i].path,
            #[trigger] y[j].path,
        ) by {
            assert(text::text_before(b[i].path, b[j].path));
        }
        assert forall|p: Seq<char>| #[trigger] by_path(x).dom().contains(p) implies by_path(
            y,
        ).dom().contains(p) && by_path(x)[p] == by_path(y)[p] by {
            lemma_shorter(a, b, p);
        }
        assert forall|p: Seq<char>| #[trigger] by_path(y).dom().contains(p) implies by_path(
            x,
        ).dom().contains(p) by {
            lemma_shorter(b, a, p);
        }
        assert(by_path(x) =~= by_path(y));
        order_fixes_the_list(x, y);
        assert(a =~= x.push(a.last()));
        assert(b =~= y.push(b.last()));
    }
}

/// What a list holds under a path without its last file, another one with the
/// same last file and the same versions holds too.
proof fn lemma_shorter(a: Seq<FileView>, b: Seq<FileView>, p: Seq<char>)
    requires
        ordered(a),
        ordered(b),
        ordered(a.drop_last()),
        ordered(b.drop_last()),
        by_path(a) == by_path(b),
        a.len() > 0,
        b.len() > 0,
        a.last() == b.last(),
        has_path(a.drop_last(), p),
    ensures
        has_path(b.drop_last(), p),
        by_path(a.drop_last())[p] == by_path(b.drop_last())[p],
{
    let x = a.drop_last();
    let y = b.drop_last();
    let i = choose|i: int| 0 <= i < x.len() && #[trigger] x[i].path == p;
    assert(a[i].path == p);
    lemma_by_path(a, i);
    assert(by_path(b).dom().contains(p));
    let j = choose|j: int| 0 <= j < b.len() && #[trigger] b[j].path == p;
    if j == b.len() - 1 {
        paths_are_distinct(a, i, a.len() - 1);
    }
    assert(y[j].path == p);
    lemma_by_path(b, j);
    lemma_by_path(x, i);
    lemma_by_path(y, j);
}

impl Files {
    /// The files stand in the order of their paths, each path once.
    pub open spec fn wf(&self) -> bool {
        ordered(self@)
    }

    /// A folder without history.
    pub fn new() -> (r: Files)
        ensures
            r.wf(),
            r@ == Seq::<FileView>::empty(),
    {
        let r = Files { entries: Vec::new() };
        assert(r@ =~= Seq::<FileView>::empty());
        r
    }

    /// The files, in the order of their paths.
    pub fn entries(&self) -> (r: &Vec<FileHistory>)
        ensures
            r@.map_values(|f: FileHistory| f@) == self@,
            r@.len() == self@.len(),
            forall|i: int| 0 <= i < r@.len() ==> (#[trigger] r@[i])@ == self@[i],
    {
        &self.entries
    }

    /// Records the versions of a file, in place of those that it had.
    pub fn insert(&mut self, path: String, versions: Vec<Version>)
        requires
            old(self).wf(),
        ensures
            final(self).wf(),
            by_path(final(self)@) == by_path(old(self)@).insert(path@, version_views(versions@)),
    {
        let ghost before = self@;
        let ghost file = FileView { path: path@, versions: version_views(versions@) };
        let mut at: usize = 0;
        while at < self.entries.len() && text::comes_before(
            self.entries[at].path.as_str(),
            path.as_str(),
        )
            invariant
                at <= self.entries@.len(),
                before == self@,
                ordered(before),
                self.entries@.len() == before.len(),
                forall|i: int| 0 <= i < at ==> text::text_before(#[trigger] before[i].path, path@),
            decreases self.entries@.len() - at,
        {
            assert(before[at as int].path == self.entries@[at as int].path@);
            at += 1;
        }
        proof {
            if at < before.len() {
                assert(before[at as int].path == self.entries@[at as int].path@);
                text::text_order_is_total(before[at as int].path, path@);
            }
        }
        if at < self.entries.len() && self.entries[at].path == path {
            self.entries.set(at, FileHistory { path, versions });
            proof {
                assert(self@ =~= before.update(at as int, file));
                lemma_put(before, at as int, file, self@);
            }
        } else {
            self.entries.insert(at, FileHistory { path, versions });
            proof {
                assert(self@ =~= before.insert(at as int, file));
                assert forall|i: int| at <= i < before.len() implies text::text_before(
                    file.path,
                    #[trigger] before[i].path,
                ) by {
                    if i > at {
                        assert(text::text_before(before[at as int].path, before[i].path));
                        text::text_order_is_transitive(
                            file.path,
                            before[at as int].path,
                            before[i].path,
                        );
                    }
                }
                lemma_put(before, at as int, file, self@);
            }
        }
    }
}

/// Putting a file at its place, in place of the one with its path or between its
/// neighbours, changes what is held under its path and nothing else.
proof fn lemma_put(before: Seq<FileView>, at: int, file: FileView, after: Seq<FileView>)
    requires
        ordered(before),
        0 <= at <= before.len(),
        ({
            ||| at < before.len() && before[at].path == file.path && after == before.update(
                at,
                file,
            )
            ||| {
                &&& after == before.insert(at, file)
                &&& forall|i: int|
                    0 <= i < at ==> text::text_before(#[trigger] before[i].path, file.path)
                &&& forall|i: int|
                    at <= i < before.len() ==> text::text_before(
                        file.path,
                        #[trigger] before[i].path,
                    )
            }
        }),
    ensures
        ordered(after),
        by_path(after) == by_path(before).insert(file.path, file.versions),
{
    let replacing = after.len() == before.len();
    assert(after[at] == file);
    assert forall|i: int, j: int| 0 <= i < j < after.len() implies text::text_before(
        #[trigger] after[i].path,
        #[trigger] after[j].path,
    ) by {
        let i0 = if replacing || i < at {
            i
        } else {
            i - 1
        };
        let j0 = if replacing || j < at {
            j
        } else {
            j - 1
        };
        if replacing {
            assert(text::text_before(before[i].path, before[j].path));
        } else if i == at {
            assert(after[j] == before[j0]);
            assert(text::text_before(file.path, before[j0].path));
        } else if j == at {
            assert(after[i] == before[i0]);
            assert(text::text_before(before[i0].path, file.path));
        } else {
            assert(after[i] == before[i0]);
            assert(after[j] == before[j0]);
            assert(text::text_before(before[i0].path, before[j0].path));
        }
    }
    let expected = by_path(before).insert(file.path, file.versions);
    assert forall|p: Seq<char>| true implies #[trigger] by_path(after).dom().contains(p)
        == expected.dom().contains(p) by {
        if has_path(after, p) {
            let i = choose|i: int| 0 <= i < after.len() && #[trigger] after[i].path == p;
            if i != at {
                let i0 = if replacing || i < at {
                    i
                } else {
                    i - 1
                };
                assert(before[i0].path == p);
                assert(has_path(before, p));
            }
        }
        if has_path(before, p) && p != file.path {
            let i = choose|i: int| 0 <= i < before.len() && #[trigger] before[i].path == p;
            let i1 = if replacing || i < at {
                i
            } else {
                i + 1
            };
            assert(after[i1].path == p);
            assert(has_path(after, p));
        }
    }
    assert forall|p: Seq<char>| #[trigger] by_path(after).dom().contains(p) implies by_path(
        after,
    )[p] == expected[p] by {
        let i = choose|i: int| 0 <= i < after.len() && #[trigger] after[i].path == p;
        lemma_by_path(after, i);
        if i == at {
        } else {
            let i0 = if replacing || i < at {
                i
            } else {
                i - 1
            };
            assert(before[i0] == after[i]);
            lemma_by_path(before, i0);
            if p == file.path {
                paths_are_distinct(after, i, at);
            }
        }
    }
    assert(by_path(after) =~= expected);
}

/// The version that an item of a file's list describes: one that has a tag, with
/// a size of 0 where none is given.
pub open spec fn version_in(item: Json) -> Option<VersionView> {
    match item.member_text("versionTime"@) {
        Some(tag) => Some(
            VersionView {
                tag,
                size: match item.member("size"@) {
                    Some(Json::Integer(n)) => if i64::MIN <= n <= i64::MAX {
                        n
                    } else {
                        0
                    },
                    _ => 0,
                },
            },
        ),
        None => None,
    }
}

/// The versions that a file's list describes, in its order.
pub open spec fn versions_in(items: Seq<Json>) -> Seq<VersionView>
    decreases items.len(),
{
    if items.len() == 0 {
        seq![]
    } else {
        let rest = versions_in(items.drop_last());
        match version_in(items.last()) {
            Some(v) => rest.push(v),
            None => rest,
        }
    }
}

/// The versions that a folder's answer describes for a file.
pub open spec fn versions_of(answer: Json, path: Seq<char>) -> Seq<VersionView> {
    match answer.member(path) {
        Some(Json::Array(items)) => versions_in(items),
        _ => seq![],
    }
}

/// The versions with a tag, in their order.
pub open spec fn tagged(vs: Seq<VersionView>, tag: Seq<char>) -> Seq<VersionView> {
    vs.filter(|v: VersionView| v.tag == tag)
}

/// Every version's tag names an instant.
pub open spec fn dated(vs: Seq<VersionView>) -> bool {
    forall|i: int| 0 <= i < vs.len() ==> instants::instant((#[trigger] vs[i]).tag) is Some
}

/// The first tag stands behind the second: as the older one where the tags of the list tell
/// the time, as the lesser text otherwise.
pub open spec fn behind(timed: bool, a: Seq<char>, b: Seq<char>) -> bool {
    if timed {
        instants::older(a, b)
    } else {
        text::text_before(a, b)
    }
}

/// No version comes before one that it stands behind.
pub open spec fn descending(timed: bool, vs: Seq<VersionView>) -> bool {
    forall|i: int, j: int|
        0 <= i < j < vs.len() ==> !behind(timed, #[trigger] vs[i].tag, #[trigger] vs[j].tag)
}

/// The versions of `given` with the newest first, where all their tags name instants; those
/// of one instant, and all of them where a tag names none, with the greatest text first.
/// Those with the same tag keep their order.
pub open spec fn newest_first(vs: Seq<VersionView>, given: Seq<VersionView>) -> bool {
    &&& descending(dated(given), vs)
    &&& forall|tag: Seq<char>| #[trigger] tagged(vs, tag) == tagged(given, tag)
}

proof fn lemma_behind_is_total(timed: bool, a: Seq<char>, b: Seq<char>)
    ensures
        behind(timed, a, b) ==> a != b && !behind(timed, b, a),
        a != b ==> behind(timed, a, b) || behind(timed, b, a),
{
    instants::age_order_is_total(a, b);
    text::text_order_is_total(a, b);
}

/// A version put where none with its tag comes behind it joins those with its tag at their
/// end.
proof fn lemma_tagged_insert(vs: Seq<VersionView>, at: int, v: VersionView, tag: Seq<char>)
    requires
        0 <= at <= vs.len(),
        forall|i: int| at <= i < vs.len() ==> (#[trigger] vs[i]).tag != v.tag,
    ensures
        tagged(vs.insert(at, v), tag) == tagged(vs.push(v), tag),
{
    let pred = |x: VersionView| x.tag == tag;
    let front = vs.take(at);
    let back = vs.skip(at);
    assert(vs =~= front + back);
    assert(vs.insert(at, v) =~= front + (seq![v] + back));
    assert(vs.push(v) =~= front + (back + seq![v]));
    Seq::filter_distributes_over_add(front, seq![v] + back, pred);
    Seq::filter_distributes_over_add(front, back + seq![v], pred);
    Seq::filter_distributes_over_add(seq![v], back, pred);
    Seq::filter_distributes_over_add(back, seq![v], pred);
    if tag == v.tag {
        assert forall|i: int| 0 <= i < back.len() implies (#[trigger] back[i]).tag != tag by {
            assert(back[i] == vs[at + i]);
        }
        lemma_nothing_tagged(back, tag);
    } else {
        lemma_nothing_tagged(seq![v], tag);
    }
    assert(seq![v].filter(pred) + back.filter(pred) =~= back.filter(pred) + seq![v].filter(pred));
}

/// A list in which no version has the tag has none with it.
proof fn lemma_nothing_tagged(vs: Seq<VersionView>, tag: Seq<char>)
    requires
        forall|i: int| 0 <= i < vs.len() ==> (#[trigger] vs[i]).tag != tag,
    ensures
        tagged(vs, tag) == Seq::<VersionView>::empty(),
{
    let pred = |v: VersionView| v.tag == tag;
    assert forall|i: int| 0 <= i < vs.len() implies !pred(#[trigger] vs[i]) by {}
    vs.lemma_all_neg_filter_empty(pred);
}

/// Some version of the list has a tag exactly where there are versions with it.
proof fn lemma_tagged_some(vs: Seq<VersionView>, tag: Seq<char>)
    ensures
        tagged(vs, tag).len() > 0 ==> exists|i: int| 0 <= i < vs.len() && #[trigger] vs[i].tag == tag,
        forall|i: int| 0 <= i < vs.len() && #[trigger] vs[i].tag == tag ==> tagged(vs, tag).len() > 0,
{
    let pred = |v: VersionView| v.tag == tag;
    if forall|i: int| 0 <= i < vs.len() ==> (#[trigger] vs[i]).tag != tag {
        lemma_nothing_tagged(vs, tag);
    }
    assert forall|i: int| 0 <= i < vs.len() && #[trigger] vs[i].tag == tag implies tagged(
        vs,
        tag,
    ).len() > 0 by {
        broadcast use vstd::seq_lib::group_filter_ensures;

        assert(pred(vs[i]));
        assert(vs.filter(pred).contains(vs[i]));
    }
}

/// Some version of the list has the tag.
pub open spec fn has_tag(vs: Seq<VersionView>, tag: Seq<char>) -> bool {
    exists|i: int| 0 <= i < vs.len() && #[trigger] vs[i].tag == tag
}

/// Ordering a list keeps its tags: the same ones occur in both lists.
pub proof fn ordering_keeps_the_tags(vs: Seq<VersionView>, given: Seq<VersionView>)
    requires
        newest_first(vs, given),
    ensures
        forall|tag: Seq<char>| #[trigger] has_tag(vs, tag) == has_tag(given, tag),
        dated(vs) == dated(given),
{
    assert forall|tag: Seq<char>| #[trigger] has_tag(vs, tag) == has_tag(given, tag) by {
        lemma_tagged_some(vs, tag);
        lemma_tagged_some(given, tag);
        assert(tagged(vs, tag) == tagged(given, tag));
    }
    if dated(given) {
        assert forall|i: int| 0 <= i < vs.len() implies instants::instant(
            (#[trigger] vs[i]).tag,
        ) is Some by {
            assert(has_tag(vs, vs[i].tag));
            let j = choose|j: int| 0 <= j < given.len() && #[trigger] given[j].tag == vs[i].tag;
            assert(instants::instant(given[j].tag) is Some);
        }
    }
    if dated(vs) {
        assert forall|j: int| 0 <= j < given.len() implies instants::instant(
            (#[trigger] given[j]).tag,
        ) is Some by {
            assert(has_tag(given, given[j].tag));
            assert(has_tag(vs, given[j].tag));
            let i = choose|i: int| 0 <= i < vs.len() && #[trigger] vs[i].tag == given[j].tag;
            assert(instants::instant(vs[i].tag) is Some);
        }
    }
}

/// Versions come by their tags, the greater text first, where the tags are written alike or
/// where one of them names no instant.
pub proof fn versions_come_by_their_tags(
    vs: Seq<VersionView>,
    given: Seq<VersionView>,
    i: int,
    j: int,
)
    requires
        newest_first(vs, given),
        0 <= i < j < vs.len(),
        !dated(given) || instants::written_alike(vs[i].tag, vs[j].tag),
    ensures
        vs[i].tag == vs[j].tag || text::text_before(vs[j].tag, vs[i].tag),
{
    assert(!behind(dated(given), vs[i].tag, vs[j].tag));
    text::text_order_is_total(vs[i].tag, vs[j].tag);
    if dated(given) {
        instants::tags_of_one_offset_sort_as_texts(vs[i].tag, vs[j].tag);
    }
}

/// The newest first, and those with the same tag in their order: that leaves one list only.
pub proof fn newest_first_is_one_list(
    a: Seq<VersionView>,
    b: Seq<VersionView>,
    given: Seq<VersionView>,
)
    requires
        newest_first(a, given),
        newest_first(b, given),
    ensures
        a == b,
{
    assert forall|tag: Seq<char>| #[trigger] tagged(a, tag) == tagged(b, tag) by {
        assert(tagged(a, tag) == tagged(given, tag));
        assert(tagged(b, tag) == tagged(given, tag));
    }
    lemma_same_descending(dated(given), a, b);
}

/// The last version of a list is the last of those with its tag.
proof fn lemma_tagged_last(vs: Seq<VersionView>, tag: Seq<char>)
    requires
        vs.len() > 0,
    ensures
        tagged(vs, tag) == if vs.last().tag == tag {
            tagged(vs.drop_last(), tag).push(vs.last())
        } else {
            tagged(vs.drop_last(), tag)
        },
{
    reveal(Seq::filter);
}

/// Two descending lists with the same versions under each tag end with the same tag.
proof fn lemma_same_last_tag(timed: bool, a: Seq<VersionView>, b: Seq<VersionView>)
    requires
        descending(timed, a),
        descending(timed, b),
        forall|tag: Seq<char>| #[trigger] tagged(a, tag) == tagged(b, tag),
        a.len() > 0,
        b.len() > 0,
    ensures
        a.last().tag == b.last().tag,
{
    let t = a.last().tag;
    let u = b.last().tag;
    lemma_tagged_some(a, t);
    lemma_tagged_some(b, t);
    assert(tagged(a, t) == tagged(b, t));
    assert(a[a.len() - 1].tag == t);
    let j = choose|j: int| 0 <= j < b.len() && #[trigger] b[j].tag == t;
    lemma_tagged_some(a, u);
    lemma_tagged_some(b, u);
    assert(tagged(a, u) == tagged(b, u));
    assert(b[b.len() - 1].tag == u);
    let i = choose|i: int| 0 <= i < a.len() && #[trigger] a[i].tag == u;
    if t != u {
        assert(!behind(timed, b[j].tag, b[b.len() - 1].tag));
        assert(!behind(timed, a[i].tag, a[a.len() - 1].tag));
        lemma_behind_is_total(timed, t, u);
    }
}

/// A descending list without its last version is descending.
proof fn lemma_shorter_descending(timed: bool, vs: Seq<VersionView>)
    requires
        descending(timed, vs),
        vs.len() > 0,
    ensures
        descending(timed, vs.drop_last()),
{
    let x = vs.drop_last();
    assert forall|m: int, n: int| 0 <= m < n < x.len() implies !behind(
        timed,
        #[trigger] x[m].tag,
        #[trigger] x[n].tag,
    ) by {
        assert(!behind(timed, vs[m].tag, vs[n].tag));
    }
}

/// Two descending lists with the same versions under each tag are the same.
proof fn lemma_same_descending(timed: bool, a: Seq<VersionView>, b: Seq<VersionView>)
    requires
        descending(timed, a),
        descending(timed, b),
        forall|tag: Seq<char>| #[trigger] tagged(a, tag) == tagged(b, tag),
    ensures
        a == b,
    decreases a.len(),
{
    if a.len() == 0 || b.len() == 0 {
        if a.len() > 0 {
            lemma_tagged_some(a, a[0].tag);
            lemma_tagged_some(b, a[0].tag);
            assert(tagged(a, a[0].tag) == tagged(b, a[0].tag));
        }
        if b.len() > 0 {
            lemma_tagged_some(a, b[0].tag);
            lemma_tagged_some(b, b[0].tag);
            assert(tagged(a, b[0].tag) == tagged(b, b[0].tag));
        }
        assert(a =~= b);
    } else {
        let t = a.last().tag;
        lemma_same_last_tag(timed, a, b);
        let x = a.drop_last();
        let y = b.drop_last();
        assert(a.last() == b.last()) by {
            lemma_tagged_last(a, t);
            lemma_tagged_last(b, t);
            assert(tagged(a, t) == tagged(b, t));
            assert(tagged(a, t).last() == a.last());
            assert(tagged(b, t).last() == b.last());
        }
        assert forall|tag: Seq<char>| #[trigger] tagged(x, tag) == tagged(y, tag) by {
            lemma_tagged_last(a, tag);
            lemma_tagged_last(b, tag);
            assert(tagged(a, tag) == tagged(b, tag));
            if tag == t {
                assert(tagged(x, tag) =~= tagged(a, tag).drop_last());
                assert(tagged(y, tag) =~= tagged(b, tag).drop_last());
            }
        }
        lemma_shorter_descending(timed, a);
        lemma_shorter_descending(timed, b);
        lemma_same_descending(timed, x, y);
        assert(a =~= x.push(a.last()));
        assert(b =~= y.push(b.last()));
    }
}

/// Whether the first tag stands behind the second.
fn is_behind(timed: bool, a: &str, b: &str) -> (r: bool)
    ensures
        r == behind(timed, a@, b@),
{
    if timed {
        instants::is_older(a, b)
    } else {
        text::comes_before(a, b)
    }
}

/// Puts a version into a descending list, behind those with its tag.
fn insert_version(
    vs: &mut Vec<Version>,
    v: Version,
    timed: bool,
    Ghost(given): Ghost<Seq<VersionView>>,
)
    requires
        descending(timed, version_views(old(vs)@)),
        forall|tag: Seq<char>| #[trigger]
            tagged(version_views(old(vs)@), tag) == tagged(given, tag),
        timed ==> dated(version_views(old(vs)@)) && instants::instant(v@.tag) is Some,
    ensures
        descending(timed, version_views(final(vs)@)),
        forall|tag: Seq<char>| #[trigger]
            tagged(version_views(final(vs)@), tag) == tagged(given.push(v@), tag),
        timed ==> dated(version_views(final(vs)@)),
        final(vs)@.len() == old(vs)@.len() + 1,
{
    let ghost before = version_views(vs@);
    let mut at: usize = 0;
    while at < vs.len() && !is_behind(timed, vs[at].tag.as_str(), v.tag.as_str())
        invariant
            at <= vs@.len(),
            before == version_views(vs@),
            before.len() == vs@.len(),
            forall|i: int| 0 <= i < at ==> !behind(timed, #[trigger] before[i].tag, v@.tag),
        decreases vs@.len() - at,
    {
        assert(before[at as int] == vs@[at as int]@);
        at += 1;
    }
    let ghost new = v@;
    proof {
        if at < before.len() {
            assert(before[at as int] == vs@[at as int]@);
        }
        assert forall|i: int| at <= i < before.len() implies behind(
            timed,
            #[trigger] before[i].tag,
            new.tag,
        ) by {
            if i > at {
                let first = before[at as int].tag;
                assert(!behind(timed, first, before[i].tag));
                lemma_behind_is_total(timed, first, before[i].tag);
                if before[i].tag != first {
                    if timed {
                        assert(instants::instant(before[at as int].tag) is Some);
                        assert(instants::instant(before[i].tag) is Some);
                        instants::age_order_is_transitive(before[i].tag, first, new.tag);
                    } else {
                        text::text_order_is_transitive(before[i].tag, first, new.tag);
                    }
                }
            }
        }
    }
    vs.insert(at, v);
    proof {
        let after = version_views(vs@);
        assert(after =~= before.insert(at as int, new));
        assert forall|i: int, j: int| 0 <= i < j < after.len() implies !behind(
            timed,
            #[trigger] after[i].tag,
            #[trigger] after[j].tag,
        ) by {
            let i0 = if i < at {
                i
            } else {
                i - 1
            };
            let j0 = if j < at {
                j
            } else {
                j - 1
            };
            if i == at {
                assert(after[j] == before[j0]);
                lemma_behind_is_total(timed, before[j0].tag, new.tag);
            } else if j == at {
                assert(after[i] == before[i0]);
            } else {
                assert(after[i] == before[i0]);
                assert(after[j] == before[j0]);
            }
        }
        if timed {
            assert forall|i: int| 0 <= i < after.len() implies instants::instant(
                (#[trigger] after[i]).tag,
            ) is Some by {
                if i < at {
                    assert(after[i] == before[i]);
                } else if i > at {
                    assert(after[i] == before[i - 1]);
                }
            }
        }
        assert forall|tag: Seq<char>| #[trigger] tagged(after, tag) == tagged(
            given.push(new),
            tag,
        ) by {
            assert forall|i: int| at <= i < before.len() implies (#[trigger] before[i]).tag
                != new.tag by {
                lemma_behind_is_total(timed, before[i].tag, new.tag);
            }
            lemma_tagged_insert(before, at as int, new, tag);
            let pred = |x: VersionView| x.tag == tag;
            assert(tagged(before, tag) == tagged(given, tag));
            assert(before.push(new) =~= before + seq![new]);
            assert(given.push(new) =~= given + seq![new]);
            Seq::filter_distributes_over_add(before, seq![new], pred);
            Seq::filter_distributes_over_add(given, seq![new], pred);
        }
    }
}

/// The version that an item of a file's list describes.
fn read_version(item: &Value) -> (r: Option<Version>)
    ensures
        match r {
            Some(v) => version_in(json::json(*item)) == Some(v@),
            None => version_in(json::json(*item)) is None,
        },
{
    match json::member_text(item, "versionTime") {
        Some(tag) => {
            let size: i64 = match json::get_member(item, "size") {
                Some(n) => match json::as_integer(n) {
                    Some(size) => size,
                    None => 0,
                },
                None => 0,
            };
            Some(Version { tag: tag.to_owned(), size })
        },
        None => None,
    }
}

/// Whether every version that a file's list describes has a tag that names an instant.
fn all_dated(items: &Vec<Value>) -> (r: bool)
    ensures
        r == dated(versions_in(json::jsons(items@))),
{
    let ghost all = json::jsons(items@);
    let mut timed = true;
    let mut i: usize = 0;
    while i < items.len()
        invariant
            i <= items@.len(),
            all == json::jsons(items@),
            timed == dated(versions_in(all.take(i as int))),
        decreases items@.len() - i,
    {
        assert(all.take(i + 1).drop_last() =~= all.take(i as int));
        assert(all.take(i + 1).last() == json::json(items@[i as int]));
        let ghost so_far = versions_in(all.take(i as int));
        match read_version(&items[i]) {
            Some(v) => {
                let named = instants::names_instant(v.tag.as_str());
                proof {
                    let more = so_far.push(v@);
                    assert(more == versions_in(all.take(i + 1)));
                    if dated(more) {
                        assert(more[so_far.len() as int] == v@);
                        assert forall|k: int| 0 <= k < so_far.len() implies instants::instant(
                            (#[trigger] so_far[k]).tag,
                        ) is Some by {
                            assert(more[k] == so_far[k]);
                        }
                    }
                }
                timed = timed && named;
            },
            None => {},
        }
        i += 1;
    }
    assert(all.take(i as int) =~= all);
    timed
}

/// The versions that a file's list describes, the newest first by the instants that their
/// tags name, which need not be written at one offset. Tags that do not all tell the time
/// are ordered as texts.
pub fn read_versions(items: &Vec<Value>) -> (r: Vec<Version>)
    ensures
        newest_first(version_views(r@), versions_in(json::jsons(items@))),
        r@.len() == versions_in(json::jsons(items@)).len(),
{
    let ghost all = json::jsons(items@);
    let ghost whole = versions_in(all);
    let timed = all_dated(items);
    let mut out: Vec<Version> = Vec::new();
    let mut i: usize = 0;
    assert(version_views(out@) =~= versions_in(all.take(0)));
    while i < items.len()
        invariant
            i <= items@.len(),
            all == json::jsons(items@),
            whole == versions_in(all),
            timed == dated(whole),
            timed ==> dated(version_views(out@)),
            descending(timed, version_views(out@)),
            forall|tag: Seq<char>| #[trigger]
                tagged(version_views(out@), tag) == tagged(versions_in(all.take(i as int)), tag),
            out@.len() == versions_in(all.take(i as int)).len(),
        decreases items@.len() - i,
    {
        let ghost given = versions_in(all.take(i as int));
        assert(all.take(i + 1).drop_last() =~= all.take(i as int));
        assert(all.take(i + 1).last() == json::json(items@[i as int]));
        match read_version(&items[i]) {
            Some(v) => {
                proof {
                    lemma_versions_in_prefix(all, i + 1);
                    let n = given.len() as int;
                    assert(versions_in(all.take(i + 1))[n] == v@);
                    assert(whole[n] == v@);
                }
                insert_version(&mut out, v, timed, Ghost(given));
            },
            None => {},
        }
        i += 1;
    }
    assert(all.take(i as int) =~= all);
    out
}

/// The versions that the front of a list describes are the front of those that the list
/// describes.
proof fn lemma_versions_in_prefix(items: Seq<Json>, n: int)
    requires
        0 <= n <= items.len(),
    ensures
        versions_in(items.take(n)).is_prefix_of(versions_in(items)),
    decreases items.len(),
{
    if n == items.len() {
        assert(items.take(n) =~= items);
    } else {
        lemma_versions_in_prefix(items.drop_last(), n);
        assert(items.drop_last().take(n) =~= items.take(n));
        let front = versions_in(items.take(n));
        let rest = versions_in(items.drop_last());
        let whole = versions_in(items);
        assert(front =~= rest.subrange(0, front.len() as int));
        assert(whole.subrange(0, front.len() as int) =~= rest.subrange(0, front.len() as int));
    }
}

/// Pull the folder's versions from Syncthing's answer into `path → [newest … oldest]`:
/// the files with at least one version, in the order of their paths.
pub fn load_versions(raw: &Value) -> (r: Files)
    ensures
        r.wf(),
        forall|path: Seq<char>|
            has_path(r@, path) <==> #[trigger] versions_of(json::json(*raw), path).len() > 0,
        forall|i: int|
            0 <= i < r@.len() ==> newest_first(
                (#[trigger] r@[i]).versions,
                versions_of(json::json(*raw), r@[i].path),
            ),
{
    let mut out = Files::new();
    let ghost answer = json::json(*raw);
    let entries = match json::as_entries(raw) {
        Some(entries) => entries,
        None => {
            return out;
        },
    };
    let mut n: usize = 0;
    while n < entries.len()
        invariant
            n <= entries@.len(),
            answer == json::json(*raw),
            out.wf(),
            forall|i: int|
                0 <= i < entries@.len() ==> answer.member(#[trigger] entries@[i].0@) == Some(
                    json::json(*entries@[i].1),
                ),
            forall|i: int, j: int|
                0 <= i < j < entries@.len() ==> #[trigger] entries@[i].0@
                    != #[trigger] entries@[j].0@,
            forall|i: int|
                0 <= i < n ==> (has_path(out@, #[trigger] entries@[i].0@) <==> versions_of(
                    answer,
                    entries@[i].0@,
                ).len() > 0),
            forall|path: Seq<char>| #[trigger]
                has_path(out@, path) ==> exists|i: int| 0 <= i < n && entries@[i].0@ == path,
            forall|i: int|
                0 <= i < out@.len() ==> newest_first(
                    (#[trigger] out@[i]).versions,
                    versions_of(answer, out@[i].path),
                ),
        decreases entries@.len() - n,
    {
        let (file, list): (&String, &Value) = entries[n];
        let ghost before = out@;
        let ghost path = file@;
        assert(path == entries@[n as int].0@);
        let mut found: Vec<Version> = Vec::new();
        match json::as_items(list) {
            Some(items) => {
                found = read_versions(items);
            },
            None => {},
        }
        if found.len() > 0 {
            let ghost vs = version_views(found@);
            out.insert(file.clone(), found);
            proof {
                let after = out@;
                assert forall|p: Seq<char>| has_path(after, p) == (has_path(before, p) || p
                    == path) by {
                    assert(by_path(after).dom().contains(p) == by_path(before).insert(
                        path,
                        vs,
                    ).dom().contains(p));
                }
                assert forall|i: int| 0 <= i < after.len() implies newest_first(
                    (#[trigger] after[i]).versions,
                    versions_of(answer, after[i].path),
                ) by {
                    lemma_by_path(after, i);
                    if after[i].path != path {
                        assert(has_path(before, after[i].path));
                        let j = choose|j: int|
                            0 <= j < before.len() && #[trigger] before[j].path == after[i].path;
                        lemma_by_path(before, j);
                    }
                }
            }
        }
        proof {
            assert forall|i: int| 0 <= i < n + 1 implies (has_path(
                out@,
                #[trigger] entries@[i].0@,
            ) <==> versions_of(answer, entries@[i].0@).len() > 0) by {
                if i == n {
                    if has_path(before, path) {
                        let k = choose|k: int| 0 <= k < n && entries@[k].0@ == path;
                        assert(entries@[k].0@ != entries@[n as int].0@);
                    }
                }
            }
        }
        n += 1;
    }
    proof {
        assert forall|path: Seq<char>| has_path(out@, path) <==> #[trigger] versions_of(
            answer,
            path,
        ).len() > 0 by {
            if versions_of(answer, path).len() > 0 {
                assert(answer.member(path) is Some);
                let i = choose|i: int| 0 <= i < entries@.len() && entries@[i].0@ == path;
                assert(has_path(out@, entries@[i].0@));
            }
            if has_path(out@, path) {
                let i = choose|i: int| 0 <= i < entries@.len() && entries@[i].0@ == path;
            }
        }
    }
    out
}

} // verus!
