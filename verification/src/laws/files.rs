//! Laws on the references to files and on picking a version.

use vstd::prelude::*;

use crate::commands::history;
use crate::commands::history::Problem;
use crate::commands::versions;
use crate::commands::versions::{FileView, VersionView};
use crate::laws::texts;
use crate::text;

verus! {

/// No character of the text is `c`.
pub open spec fn lacks(s: Seq<char>, c: char) -> bool {
    forall|i: int| 0 <= i < s.len() ==> #[trigger] s[i] != c
}

/// The base name of a path has no `/`. That of a name is the name, and that of a name
/// below a directory is the name too, however deep the directory is.
pub proof fn a_base_name_is_what_follows_the_last_slash(dir: Seq<char>, name: Seq<char>)
    requires
        lacks(name, '/'),
    ensures
        history::base_name(name) == name,
        history::base_name(dir + seq!['/'] + name) == name,
        lacks(history::base_name(dir), '/'),
    decreases name.len(),
{
    lemma_base_name_lacks_slash(dir);
    let path = dir + seq!['/'] + name;
    if name.len() == 0 {
        assert(path.last() == '/');
        assert(history::base_name(name) =~= name);
        assert(history::base_name(path) =~= name);
    } else {
        let front = name.drop_last();
        assert forall|i: int| 0 <= i < front.len() implies #[trigger] front[i] != '/' by {
            assert(front[i] == name[i]);
        }
        a_base_name_is_what_follows_the_last_slash(dir, front);
        assert(path.drop_last() =~= dir + seq!['/'] + front);
        assert(path.last() == name[name.len() - 1]);
        assert(history::base_name(name) =~= name);
        assert(history::base_name(path) =~= name);
    }
}

proof fn lemma_base_name_lacks_slash(path: Seq<char>)
    ensures
        lacks(history::base_name(path), '/'),
    decreases path.len(),
{
    if path.len() > 0 && path.last() != '/' {
        lemma_base_name_lacks_slash(path.drop_last());
    }
}

/// The text begins with `./`.
pub open spec fn begins_with_dot(path: Seq<char>) -> bool {
    path.len() > 1 && path[0] == '.' && path[1] == '/'
}

/// `./` before a path, `n` times.
pub open spec fn dotted(n: nat, path: Seq<char>) -> Seq<char>
    decreases n,
{
    if n == 0 {
        path
    } else {
        seq!['.', '/'] + dotted((n - 1) as nat, path)
    }
}

/// `/` before a path, `n` times.
pub open spec fn slashed(n: nat, path: Seq<char>) -> Seq<char>
    decreases n,
{
    if n == 0 {
        path
    } else {
        seq!['/'] + slashed((n - 1) as nat, path)
    }
}

/// A reference stands for the path that it writes, whatever `./` stand before it and whatever
/// `/` behind these. A `./` that stands behind a `/` belongs to the path.
pub proof fn a_reference_stands_for_its_path(path: Seq<char>, dots: nat, slashes: nat)
    requires
        lacks(path, '\\'),
        path.len() > 0 ==> path[0] != '/',
        slashes == 0 ==> !begins_with_dot(path),
    ensures
        history::wanted_path(dotted(dots, slashed(slashes, path))) == path,
{
    let s = dotted(dots, slashed(slashes, path));
    lemma_no_backslash(path, dots, slashes);
    assert(text::replaced(s, '\\', '/') =~= s);
    lemma_without_slashes(path, slashes);
    lemma_without_dots(slashed(slashes, path), dots);
    let inner = slashed(slashes, path);
    if slashes > 0 {
        assert(inner[0] == '/');
    }
    assert(history::without_dots(inner) == inner);
}

proof fn lemma_no_backslash(path: Seq<char>, dots: nat, slashes: nat)
    requires
        lacks(path, '\\'),
    ensures
        lacks(slashed(slashes, path), '\\'),
        lacks(dotted(dots, slashed(slashes, path)), '\\'),
    decreases dots, slashes,
{
    if dots > 0 {
        lemma_no_backslash(path, (dots - 1) as nat, slashes);
    } else if slashes > 0 {
        lemma_no_backslash(path, 0, (slashes - 1) as nat);
    }
}

proof fn lemma_without_slashes(path: Seq<char>, n: nat)
    requires
        path.len() > 0 ==> path[0] != '/',
    ensures
        history::without_slashes(slashed(n, path)) == path,
    decreases n,
{
    if n > 0 {
        lemma_without_slashes(path, (n - 1) as nat);
        assert(slashed(n, path).skip(1) =~= slashed((n - 1) as nat, path));
    }
}

proof fn lemma_without_dots(s: Seq<char>, n: nat)
    ensures
        history::without_dots(dotted(n, s)) == history::without_dots(s),
    decreases n,
{
    if n > 0 {
        lemma_without_dots(s, (n - 1) as nat);
        assert(dotted(n, s).skip(2) =~= dotted((n - 1) as nat, s));
    }
}

/// A reference means the same with its backslashes turned into slashes.
pub proof fn backslashes_are_slashes(wanted: Seq<char>)
    ensures
        history::wanted_path(text::replaced(wanted, '\\', '/')) == history::wanted_path(wanted),
{
    let s = text::replaced(wanted, '\\', '/');
    assert(text::replaced(s, '\\', '/') =~= s);
}

/// The file at `i` is meant by the path, or by its base name.
pub open spec fn has_name(files: Seq<FileView>, i: int, path: Seq<char>) -> bool {
    0 <= i < files.len() && (files[i].path == path || history::base_name(files[i].path) == path)
}

/// A reference finds one of the files, whole: the one with exactly that path, or else the
/// only one with that base name.
pub proof fn what_is_found_is_a_file(files: Seq<FileView>, wanted: Seq<char>)
    requires
        versions::ordered(files),
    ensures
        history::resolve(files, wanted) matches Ok(f) ==> {
            &&& files.contains(f)
            &&& f.path == history::wanted_path(wanted) || (history::base_name(f.path)
                == history::wanted_path(wanted) && forall|j: int|
                0 <= j < files.len() && (#[trigger] files[j]) != f ==> files[j].path
                    != history::wanted_path(wanted) && history::base_name(files[j].path)
                    != history::wanted_path(wanted))
        },
        forall|i: int|
            0 <= i < files.len() && (#[trigger] files[i]).path == history::wanted_path(wanted)
                ==> history::resolve(files, wanted) == Ok::<FileView, Problem>(files[i]),
{
    let path = history::wanted_path(wanted);
    let pred = |f: FileView| history::base_name(f.path) == path;
    assert forall|i: int|
        0 <= i < files.len() && (#[trigger] files[i]).path == path implies history::resolve(
        files,
        wanted,
    ) == Ok::<FileView, Problem>(files[i]) by {
        versions::lemma_by_path(files, i);
    }
    if versions::has_path(files, path) {
        let i = choose|i: int| 0 <= i < files.len() && #[trigger] files[i].path == path;
        assert(files.contains(files[i]));
    } else if history::named(files, path).len() == 1 {
        let f = history::named(files, path)[0];
        files.lemma_filter_pred(pred, 0);
        assert(files.filter(pred).contains(f));
        files.lemma_filter_contains_rev(pred, f);
        assert forall|j: int| 0 <= j < files.len() && (#[trigger] files[j]) != f implies files[j].path
            != path && history::base_name(files[j].path) != path by {
            if pred(files[j]) {
                files.lemma_filter_contains(pred, j);
            }
        }
    }
}

/// Where no file has the path or the base name, the reference is refused, with every path
/// that there is. Where several have the base name and none the path, it is refused with
/// the paths of those files and of no others.
pub proof fn what_is_not_found_is_told(files: Seq<FileView>, wanted: Seq<char>)
    requires
        versions::ordered(files),
    ensures
        (history::resolve(files, wanted) is Err && history::resolve(files, wanted)->Err_0
            is NoHistory) <==> forall|i: int| !has_name(files, i, history::wanted_path(wanted)),
        history::resolve(files, wanted) matches Err(p) ==> p is NoHistory || p is SeveralFiles,
        history::resolve(files, wanted) matches Err(Problem::NoHistory { wanted: w, known }) ==> {
            &&& w == wanted
            &&& known.len() == files.len()
            &&& forall|i: int| 0 <= i < files.len() ==> #[trigger] known[i] == files[i].path
        },
        history::resolve(files, wanted) matches Err(Problem::SeveralFiles { wanted: w, paths })
            ==> {
            &&& w == wanted
            &&& paths.len() > 1
            &&& forall|i: int|
                0 <= i < files.len() ==> (#[trigger] files[i]).path != history::wanted_path(wanted)
            &&& forall|i: int|
                0 <= i < files.len() ==> (paths.contains((#[trigger] files[i]).path)
                    <==> history::base_name(files[i].path) == history::wanted_path(wanted))
        },
{
    let path = history::wanted_path(wanted);
    let pred = |f: FileView| history::base_name(f.path) == path;
    let matches = history::named(files, path);
    assert(matches == files.filter(pred));
    if forall|i: int| !has_name(files, i, path) {
        assert forall|i: int| 0 <= i < files.len() implies !pred(#[trigger] files[i]) by {
            assert(!has_name(files, i, path));
        }
        files.lemma_all_neg_filter_empty(pred);
        if versions::has_path(files, path) {
            let i = choose|i: int| 0 <= i < files.len() && #[trigger] files[i].path == path;
            assert(has_name(files, i, path));
        }
    } else {
        let i = choose|i: int| has_name(files, i, path);
        if files[i].path == path {
            assert(versions::has_path(files, path));
        } else {
            files.lemma_filter_contains(pred, i);
        }
    }
    if !versions::has_path(files, path) && matches.len() > 1 {
        let ps = history::paths(matches);
        assert forall|i: int| 0 <= i < files.len() implies (ps.contains((#[trigger] files[i]).path)
            <==> history::base_name(files[i].path) == path) by {
            if pred(files[i]) {
                files.lemma_filter_contains(pred, i);
                let k = choose|k: int| 0 <= k < matches.len() && matches[k] == files[i];
                assert(ps[k] == files[i].path);
            }
            if ps.contains(files[i].path) {
                let k = choose|k: int| 0 <= k < ps.len() && ps[k] == files[i].path;
                files.lemma_filter_pred(pred, k);
                assert(matches[k].path == files[i].path);
            }
        }
    }
}

/// A time is shown in 19 characters, those that the tag begins with but for a blank in place
/// of each `T`, where the tag has as many and a `T` for its eleventh; any other tag is shown
/// as it is.
pub proof fn a_time_is_shown_character_by_character(tag: Seq<char>, i: int)
    ensures
        tag.len() < 19 ==> versions::shown_time(tag) == tag,
        tag.len() >= 19 && tag[10] != 'T' ==> versions::shown_time(tag) == tag,
        tag.len() >= 19 && tag[10] == 'T' ==> {
            &&& versions::shown_time(tag).len() == 19
            &&& 0 <= i < 19 && tag[i] == 'T' ==> versions::shown_time(tag)[i] == ' '
            &&& 0 <= i < 19 && tag[i] != 'T' ==> versions::shown_time(tag)[i] == tag[i]
        },
{
}

/// A time as it may be typed: without white space around it and without a `T`.
pub open spec fn typed_time(t: Seq<char>) -> bool {
    &&& t.len() > 0 ==> !text::white(t[0]) && !text::white(t.last())
    &&& lacks(t, 'T')
}

/// The version shows a time that begins with `t`.
pub open spec fn shows(v: VersionView, t: Seq<char>) -> bool {
    &&& t.len() <= versions::shown_time(v.tag).len()
    &&& forall|i: int| 0 <= i < t.len() ==> #[trigger] versions::shown_time(v.tag)[i] == t[i]
}

proof fn lemma_is_from(v: VersionView, t: Seq<char>)
    requires
        typed_time(t),
    ensures
        history::is_from(v, t) <==> v.tag == t || shows(v, t),
{
    texts::trimming_is_exact(t);
    if t.len() == 0 {
        assert(text::trimmed(t) =~= t);
    }
    assert(text::replaced(t, 'T', ' ') =~= t);
    let shown = versions::shown_time(v.tag);
    if shows(v, t) {
        assert(t =~= shown.subrange(0, t.len() as int));
    }
    if t.is_prefix_of(shown) {
        assert forall|i: int| 0 <= i < t.len() implies #[trigger] shown[i] == t[i] by {
            assert(shown.subrange(0, t.len() as int)[i] == t[i]);
        }
    }
}

/// The version at `i` is one that the typed time `t` asks for.
pub open spec fn meets(vs: Seq<VersionView>, i: int, t: Seq<char>) -> bool {
    0 <= i < vs.len() && (vs[i].tag == t || shows(vs[i], t))
}

/// A typed time, be it a whole one or any beginning of one, picks the version that shows it
/// where no other does, and no tag is that text.
pub proof fn any_beginning_of_a_time_picks_its_version(
    path: Seq<char>,
    vs: Seq<VersionView>,
    t: Seq<char>,
    i: int,
)
    requires
        typed_time(t),
        0 <= i < vs.len(),
        shows(vs[i], t),
        forall|j: int| 0 <= j < vs.len() && j != i ==> !shows(#[trigger] vs[j], t),
        forall|j: int| 0 <= j < vs.len() && j != i ==> (#[trigger] vs[j]).tag != t,
    ensures
        history::pick(path, vs, Some(t)) == Ok::<VersionView, Problem>(vs[i]),
{
    let pred = |v: VersionView| history::is_from(v, t);
    lemma_is_from(vs[i], t);
    assert forall|j: int| 0 <= j < vs.len() && j != i implies !pred(#[trigger] vs[j]) by {
        lemma_is_from(vs[j], t);
    }
    lemma_filter_finds_one(vs, pred, i);
}

/// What a typed time picks is one of the versions, it has that text for its tag or shows a
/// time that begins with it, and no other version does.
pub proof fn what_a_time_picks_shows_it(path: Seq<char>, vs: Seq<VersionView>, t: Seq<char>)
    requires
        typed_time(t),
    ensures
        history::pick(path, vs, Some(t)) matches Ok(v) ==> {
            &&& v.tag != t ==> shows(v, t)
            &&& exists|i: int|
                {
                    &&& 0 <= i < vs.len()
                    &&& #[trigger] vs[i] == v
                    &&& forall|j: int| #[trigger] meets(vs, j, t) ==> j == i
                }
        },
{
    let pred = |v: VersionView| history::is_from(v, t);
    let found = vs.filter(pred);
    assert(history::from_time(vs, t) == found);
    if found.len() == 1 {
        let v = found[0];
        vs.lemma_filter_pred(pred, 0);
        lemma_is_from(v, t);
        assert(found.contains(v));
        vs.lemma_filter_contains_rev(pred, v);
        let i = choose|i: int| 0 <= i < vs.len() && vs[i] == v;
        assert forall|j: int| #[trigger] meets(vs, j, t) implies j == i by {
            lemma_is_from(vs[j], t);
            if j < i {
                lemma_filter_finds_two(vs, pred, j, i);
            } else if i < j {
                lemma_filter_finds_two(vs, pred, i, j);
            }
        }
        assert(vs[i] == v);
    }
}

/// A typed time that no version meets is refused as unknown, and one that several meet as
/// ambiguous, with the time that each of those shows.
pub proof fn a_time_that_picks_none_is_refused(
    path: Seq<char>,
    vs: Seq<VersionView>,
    t: Seq<char>,
)
    requires
        typed_time(t),
    ensures
        (forall|i: int| !meets(vs, i, t)) <==> history::pick(path, vs, Some(t)) == Err::<
            VersionView,
            Problem,
        >(Problem::NoMatch { path, when: t }),
        forall|i: int, j: int| #[trigger]
            meets(vs, i, t) && #[trigger] meets(vs, j, t) && i < j ==> history::pick(
                path,
                vs,
                Some(t),
            ) is Err && history::pick(path, vs, Some(t))->Err_0 is SeveralVersions,
        history::pick(path, vs, Some(t)) matches Err(Problem::SeveralVersions { when, times }) ==> {
            &&& when == t
            &&& times.len() > 1
            &&& forall|i: int| #[trigger]
                meets(vs, i, t) ==> times.contains(versions::shown_time(vs[i].tag))
            &&& forall|k: int|
                0 <= k < times.len() ==> exists|i: int| #[trigger]
                    meets(vs, i, t) && versions::shown_time(vs[i].tag) == #[trigger] times[k]
        },
{
    let pred = |v: VersionView| history::is_from(v, t);
    let found = vs.filter(pred);
    assert(history::from_time(vs, t) == found);
    assert forall|i: int| #[trigger] meets(vs, i, t) implies pred(vs[i]) by {
        lemma_is_from(vs[i], t);
    }
    if forall|i: int| !meets(vs, i, t) {
        assert forall|i: int| 0 <= i < vs.len() implies !pred(#[trigger] vs[i]) by {
            lemma_is_from(vs[i], t);
            assert(!meets(vs, i, t));
        }
        vs.lemma_all_neg_filter_empty(pred);
    } else {
        let i = choose|i: int| meets(vs, i, t);
        vs.lemma_filter_contains(pred, i);
    }
    assert forall|i: int, j: int| #[trigger]
        meets(vs, i, t) && #[trigger] meets(vs, j, t) && i < j implies found.len() > 1 by {
        lemma_filter_finds_two(vs, pred, i, j);
    }
    if found.len() > 1 {
        let times = history::times(found);
        assert forall|i: int| #[trigger] meets(vs, i, t) implies times.contains(
            versions::shown_time(vs[i].tag),
        ) by {
            vs.lemma_filter_contains(pred, i);
            let k = choose|k: int| 0 <= k < found.len() && found[k] == vs[i];
            assert(times[k] == versions::shown_time(vs[i].tag));
        }
        assert forall|k: int| 0 <= k < times.len() implies exists|i: int| #[trigger]
            meets(vs, i, t) && versions::shown_time(vs[i].tag) == #[trigger] times[k] by {
            vs.lemma_filter_pred(pred, k);
            assert(found.contains(found[k]));
            vs.lemma_filter_contains_rev(pred, found[k]);
            let i = choose|i: int| 0 <= i < vs.len() && vs[i] == found[k];
            lemma_is_from(vs[i], t);
            assert(meets(vs, i, t));
        }
    }
}

/// White space around a typed time and a `T` in it in place of a blank make no difference,
/// where no tag is one of the two texts.
pub proof fn a_time_may_be_typed_in_two_ways(
    path: Seq<char>,
    vs: Seq<VersionView>,
    when: Seq<char>,
    v: VersionView,
)
    requires
        forall|i: int| 0 <= i < vs.len() ==> (#[trigger] vs[i]).tag != when,
        forall|i: int|
            0 <= i < vs.len() ==> (#[trigger] vs[i]).tag != text::replaced(
                text::trimmed(when),
                'T',
                ' ',
            ),
        typed_time(text::replaced(text::trimmed(when), 'T', ' ')),
    ensures
        history::pick(path, vs, Some(when)) == Ok::<VersionView, Problem>(v) <==> history::pick(
            path,
            vs,
            Some(text::replaced(text::trimmed(when), 'T', ' ')),
        ) == Ok::<VersionView, Problem>(v),
{
    let t = text::replaced(text::trimmed(when), 'T', ' ');
    let one = |x: VersionView| history::is_from(x, when);
    let two = |x: VersionView| history::is_from(x, t);
    texts::trimming_is_exact(t);
    if t.len() == 0 {
        assert(text::trimmed(t) =~= t);
    }
    assert(text::replaced(t, 'T', ' ') =~= t);
    lemma_same_filter(vs, one, two);
}

/// The version at `i` is one that `--at` asks for: its tag is that very text, or the time
/// that it shows begins with the text, white space aside and with blanks for each `T`.
pub open spec fn asked_for(vs: Seq<VersionView>, i: int, when: Seq<char>) -> bool {
    0 <= i < vs.len() && (vs[i].tag == when || shows(
        vs[i],
        text::replaced(text::trimmed(when), 'T', ' '),
    ))
}

/// `--at` picks a version exactly where it asks for that one alone.
pub proof fn the_only_version_asked_for_is_picked(
    path: Seq<char>,
    vs: Seq<VersionView>,
    when: Seq<char>,
)
    ensures
        forall|i: int|
            {
                &&& #[trigger] asked_for(vs, i, when)
                &&& forall|j: int| #[trigger] asked_for(vs, j, when) ==> j == i
            } ==> history::pick(path, vs, Some(when)) == Ok::<VersionView, Problem>(vs[i]),
        history::pick(path, vs, Some(when)) is Ok ==> exists|i: int|
            {
                &&& #[trigger] asked_for(vs, i, when)
                &&& forall|j: int| #[trigger] asked_for(vs, j, when) ==> j == i
            },
{
    let pred = |v: VersionView| history::is_from(v, when);
    let found = vs.filter(pred);
    let t = text::replaced(text::trimmed(when), 'T', ' ');
    assert(history::from_time(vs, when) == found);
    assert forall|i: int| 0 <= i < vs.len() implies pred(#[trigger] vs[i]) == asked_for(
        vs,
        i,
        when,
    ) by {
        let shown = versions::shown_time(vs[i].tag);
        if shows(vs[i], t) {
            assert(t =~= shown.subrange(0, t.len() as int));
        }
        if t.is_prefix_of(shown) {
            assert forall|k: int| 0 <= k < t.len() implies #[trigger] shown[k] == t[k] by {
                assert(shown.subrange(0, t.len() as int)[k] == t[k]);
            }
        }
    }
    assert forall|i: int|
        {
            &&& #[trigger] asked_for(vs, i, when)
            &&& forall|j: int| #[trigger] asked_for(vs, j, when) ==> j == i
        } implies history::pick(path, vs, Some(when)) == Ok::<VersionView, Problem>(vs[i]) by {
        assert(pred(vs[i]));
        assert forall|j: int| 0 <= j < vs.len() && j != i implies !pred(#[trigger] vs[j]) by {
            assert(!asked_for(vs, j, when));
        }
        lemma_filter_finds_one(vs, pred, i);
    }
    if found.len() == 1 {
        vs.lemma_filter_pred(pred, 0);
        assert(found.contains(found[0]));
        vs.lemma_filter_contains_rev(pred, found[0]);
        let i = choose|i: int| 0 <= i < vs.len() && vs[i] == found[0];
        assert(asked_for(vs, i, when));
        assert forall|j: int| #[trigger] asked_for(vs, j, when) implies j == i by {
            assert(pred(vs[j]));
            if j < i {
                lemma_filter_finds_two(vs, pred, j, i);
            } else if i < j {
                lemma_filter_finds_two(vs, pred, i, j);
            }
        }
    }
}

/// Of the versions that `--at` asks for, one is picked; none, and several with their times, in
/// their order, are told with the text as it was typed.
pub proof fn what_at_does_not_pick_is_told(
    path: Seq<char>,
    vs: Seq<VersionView>,
    when: Seq<char>,
)
    ensures
        ({
            let t = text::replaced(text::trimmed(when), 'T', ' ');
            let them = vs.filter(|v: VersionView| v.tag == when || shows(v, t));
            &&& them.len() == 0 ==> history::pick(path, vs, Some(when)) == Err::<
                VersionView,
                Problem,
            >(Problem::NoMatch { path, when })
            &&& them.len() == 1 ==> history::pick(path, vs, Some(when)) == Ok::<
                VersionView,
                Problem,
            >(them[0])
            &&& them.len() > 1 ==> history::pick(path, vs, Some(when)) == Err::<
                VersionView,
                Problem,
            >(
                Problem::SeveralVersions {
                    when,
                    times: Seq::new(them.len(), |k: int| versions::shown_time(them[k].tag)),
                },
            )
        }),
{
    let t = text::replaced(text::trimmed(when), 'T', ' ');
    let own = |v: VersionView| v.tag == when || shows(v, t);
    let pred = |v: VersionView| history::is_from(v, when);
    assert forall|i: int| 0 <= i < vs.len() implies pred(#[trigger] vs[i]) == own(vs[i]) by {
        let shown = versions::shown_time(vs[i].tag);
        if shows(vs[i], t) {
            assert(t =~= shown.subrange(0, t.len() as int));
        }
        if t.is_prefix_of(shown) {
            assert forall|k: int| 0 <= k < t.len() implies #[trigger] shown[k] == t[k] by {
                assert(shown.subrange(0, t.len() as int)[k] == t[k]);
            }
        }
    }
    lemma_same_filter(vs, pred, own);
    let them = vs.filter(own);
    assert(history::from_time(vs, when) == them);
    assert(history::times(them) =~= Seq::new(
        them.len(),
        |k: int| versions::shown_time(them[k].tag),
    ));
}

/// Without a time the first version is picked; there is none only where there are no
/// versions.
pub proof fn without_a_time_the_first_is_picked(path: Seq<char>, vs: Seq<VersionView>)
    ensures
        vs.len() > 0 ==> history::pick(path, vs, None) == Ok::<VersionView, Problem>(vs[0]),
        vs.len() == 0 ==> history::pick(path, vs, None) == Err::<VersionView, Problem>(
            Problem::NoVersions { path },
        ),
{
}

proof fn lemma_same_filter<A>(s: Seq<A>, p: spec_fn(A) -> bool, q: spec_fn(A) -> bool)
    requires
        forall|i: int| 0 <= i < s.len() ==> p(#[trigger] s[i]) == q(s[i]),
    ensures
        s.filter(p) == s.filter(q),
    decreases s.len(),
{
    reveal(Seq::filter);
    if s.len() > 0 {
        let rest = s.drop_last();
        assert forall|i: int| 0 <= i < rest.len() implies p(#[trigger] rest[i]) == q(
            rest[i],
        ) by {
            assert(rest[i] == s[i]);
        }
        lemma_same_filter(rest, p, q);
        assert(p(s[s.len() - 1]) == q(s[s.len() - 1]));
    }
}

/// A filter that one place passes leaves what stands there.
pub proof fn lemma_filter_finds_one<A>(s: Seq<A>, pred: spec_fn(A) -> bool, i: int)
    requires
        0 <= i < s.len(),
        pred(s[i]),
        forall|j: int| 0 <= j < s.len() && j != i ==> !pred(#[trigger] s[j]),
    ensures
        s.filter(pred) == seq![s[i]],
{
    let front = s.take(i);
    let back = s.skip(i + 1);
    assert(s =~= front + (seq![s[i]] + back));
    Seq::filter_distributes_over_add(front, seq![s[i]] + back, pred);
    Seq::filter_distributes_over_add(seq![s[i]], back, pred);
    assert forall|j: int| 0 <= j < front.len() implies !pred(#[trigger] front[j]) by {
        assert(front[j] == s[j]);
    }
    assert forall|j: int| 0 <= j < back.len() implies !pred(#[trigger] back[j]) by {
        assert(back[j] == s[i + 1 + j]);
    }
    front.lemma_all_neg_filter_empty(pred);
    back.lemma_all_neg_filter_empty(pred);
    reveal(Seq::filter);
    assert(seq![s[i]].drop_last() =~= Seq::<A>::empty());
    assert(seq![s[i]].filter(pred) =~= seq![s[i]]);
    assert(s.filter(pred) =~= seq![s[i]]);
}

/// A filter that two places pass leaves two things at least.
pub proof fn lemma_filter_finds_two<A>(s: Seq<A>, pred: spec_fn(A) -> bool, i: int, j: int)
    requires
        0 <= i < j < s.len(),
        pred(s[i]),
        pred(s[j]),
    ensures
        s.filter(pred).len() >= 2,
{
    let front = s.take(j);
    let back = s.skip(j);
    assert(s =~= front + back);
    Seq::filter_distributes_over_add(front, back, pred);
    assert(front[i] == s[i]);
    assert(back[0] == s[j]);
    front.lemma_filter_contains(pred, i);
    back.lemma_filter_contains(pred, 0);
}

} // verus!
