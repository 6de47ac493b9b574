//! Laws on the versions that Syncthing's answer describes, and on their order.

use vstd::prelude::*;

use crate::commands::instants;
use crate::commands::versions;
use crate::commands::versions::{FileView, VersionView};
use crate::json::Json;
use crate::text;

verus! {

/// The member of an object that is a text.
pub open spec fn text_at(item: Json, key: Seq<char>) -> Option<Seq<char>> {
    match item {
        Json::Object(m) => if m.contains_key(key) {
            match m[key] {
                Json::Text(t) => Some(t),
                _ => None,
            }
        } else {
            None
        },
        _ => None,
    }
}

/// An item describes a version exactly where it has a text for its `versionTime`; the
/// version has that text for its tag, and for its size the integer under `size`, or 0 where
/// there is none or it does not fit in 64 bits.
pub proof fn an_item_describes_a_version(item: Json)
    ensures
        versions::versions_in(seq![item]).len() == (if text_at(item, "versionTime"@) is Some {
            1nat
        } else {
            0nat
        }),
        text_at(item, "versionTime"@) matches Some(tag) ==> {
            let v = versions::versions_in(seq![item])[0];
            &&& v.tag == tag
            &&& item->Object_0.contains_key("size"@) ==> (item->Object_0["size"@] matches
                Json::Integer(n) ==> v.size == (if -0x8000_0000_0000_0000 <= n
                <= 0x7fff_ffff_ffff_ffff {
                n
            } else {
                0
            }))
            &&& !item->Object_0.contains_key("size"@) || !(item->Object_0["size"@] is Integer)
                ==> v.size == 0
        },
{
    assert(seq![item].drop_last() =~= Seq::<Json>::empty());
    assert(versions::versions_in(seq![item].drop_last()) =~= Seq::<VersionView>::empty());
}

/// The versions of two lists, one after the other, are those of the first and then those of
/// the second: no item is left out.
pub proof fn every_item_is_read(a: Seq<Json>, b: Seq<Json>)
    ensures
        versions::versions_in(a + b) == versions::versions_in(a) + versions::versions_in(b),
    decreases b.len(),
{
    if b.len() == 0 {
        assert(a + b =~= a);
        assert(versions::versions_in(a) + versions::versions_in(b) =~= versions::versions_in(a));
    } else {
        every_item_is_read(a, b.drop_last());
        assert((a + b).drop_last() =~= a + b.drop_last());
        assert(versions::versions_in(a + b) =~= versions::versions_in(a) + versions::versions_in(
            b,
        ));
    }
}

/// A file's versions are those of the list that the answer has under its path; where there
/// is no list there are none.
pub proof fn a_file_has_the_versions_of_its_list(
    answer: Map<Seq<char>, Json>,
    path: Seq<char>,
    items: Seq<Json>,
)
    ensures
        answer.contains_key(path) && answer[path] == Json::Array(items) ==> versions::versions_of(
            Json::Object(answer),
            path,
        ) == versions::versions_in(items),
        !answer.contains_key(path) || !(answer[path] is Array) ==> versions::versions_of(
            Json::Object(answer),
            path,
        ).len() == 0,
{
}

/// What is no object has no versions.
pub proof fn what_is_no_object_has_no_versions(answer: Json, path: Seq<char>)
    requires
        !(answer is Object),
    ensures
        versions::versions_of(answer, path).len() == 0,
{
}

proof fn lemma_tag_keeps_count(vs: Seq<VersionView>, v: VersionView)
    ensures
        vs.to_multiset().count(v) == vs.filter(
            |x: VersionView| x.tag == v.tag,
        ).to_multiset().count(v),
    decreases vs.len(),
{
    broadcast use vstd::seq_lib::group_to_multiset_ensures;

    reveal(Seq::filter);
    let pred = |x: VersionView| x.tag == v.tag;
    if vs.len() > 0 {
        let rest = vs.drop_last();
        lemma_tag_keeps_count(rest, v);
        assert(vs =~= rest.push(vs.last()));
        if pred(vs.last()) {
            assert(vs.filter(pred) =~= rest.filter(pred).push(vs.last()));
        }
    }
}

/// Ordering versions loses none and adds none.
pub proof fn ordering_keeps_every_version(vs: Seq<VersionView>, given: Seq<VersionView>)
    requires
        versions::newest_first(vs, given),
    ensures
        vs.to_multiset() == given.to_multiset(),
        vs.len() == given.len(),
{
    broadcast use vstd::seq_lib::group_to_multiset_ensures;

    assert forall|v: VersionView| vs.to_multiset().count(v) == given.to_multiset().count(v) by {
        lemma_tag_keeps_count(vs, v);
        lemma_tag_keeps_count(given, v);
        assert(versions::tagged(vs, v.tag) == versions::tagged(given, v.tag));
    }
    assert(vs.to_multiset() =~= given.to_multiset());
    assert(vs.len() == vs.to_multiset().len());
    assert(given.len() == given.to_multiset().len());
}

/// Where every tag names an instant, no version comes before one with a later instant, and
/// of two texts for one instant the lesser does not come first.
pub proof fn versions_come_newest_first(
    vs: Seq<VersionView>,
    given: Seq<VersionView>,
    i: int,
    j: int,
)
    requires
        versions::newest_first(vs, given),
        forall|k: int|
            0 <= k < given.len() ==> instants::instant((#[trigger] given[k]).tag) is Some,
        0 <= i < j < vs.len(),
    ensures
        instants::instant(vs[i].tag) is Some,
        instants::instant(vs[j].tag) is Some,
        !instants::earlier(instants::instant(vs[i].tag)->0, instants::instant(vs[j].tag)->0),
        instants::instant(vs[i].tag) == instants::instant(vs[j].tag) ==> !text::text_before(
            vs[i].tag,
            vs[j].tag,
        ),
{
    versions::ordering_keeps_the_tags(vs, given);
    assert(versions::dated(vs));
    assert(!versions::behind(true, vs[i].tag, vs[j].tag));
}

/// Where some tag names no instant, versions come by their tags, the greater text first.
pub proof fn undated_versions_come_by_their_tags(
    vs: Seq<VersionView>,
    given: Seq<VersionView>,
    k: int,
    i: int,
    j: int,
)
    requires
        versions::newest_first(vs, given),
        0 <= k < given.len(),
        instants::instant(given[k].tag) is None,
        0 <= i < j < vs.len(),
    ensures
        !text::text_before(vs[i].tag, vs[j].tag),
{
    assert(!versions::behind(versions::dated(given), vs[i].tag, vs[j].tag));
}

/// Versions with the same tag keep their order.
pub proof fn versions_with_one_tag_keep_their_order(
    vs: Seq<VersionView>,
    given: Seq<VersionView>,
    tag: Seq<char>,
)
    requires
        versions::newest_first(vs, given),
    ensures
        vs.filter(|v: VersionView| v.tag == tag) == given.filter(|v: VersionView| v.tag == tag),
{
    assert(versions::tagged(vs, tag) == versions::tagged(given, tag));
}

/// Files that are in order have each path once, and what is held under a path is the whole
/// list of the file with that path.
pub proof fn a_path_holds_its_file(fs: Seq<FileView>, i: int, path: Seq<char>)
    requires
        versions::ordered(fs),
        0 <= i < fs.len(),
    ensures
        versions::by_path(fs).contains_key(fs[i].path),
        versions::by_path(fs)[fs[i].path] == fs[i].versions,
        versions::by_path(fs).contains_key(path) <==> exists|k: int|
            0 <= k < fs.len() && #[trigger] fs[k].path == path,
        forall|j: int| i < j < fs.len() ==> text::text_before(fs[i].path, #[trigger] fs[j].path),
{
    versions::lemma_by_path(fs, i);
    assert forall|j: int| i < j < fs.len() implies text::text_before(
        fs[i].path,
        #[trigger] fs[j].path,
    ) by {
        assert(fs[i].path == fs[i].path);
    }
}

/// The number that two digits write.
pub open spec fn pair(tag: Seq<char>, at: int) -> int {
    10 * (tag[at] as int - '0' as int) + (tag[at + 1] as int - '0' as int)
}

/// The character is a digit.
pub open spec fn digit_at(tag: Seq<char>, at: int) -> bool {
    '0' as int <= tag[at] as int <= '9' as int
}

/// The tag has the form `YYYY-MM-DDTHH:MM:SS`, as far as its 19 first characters tell.
pub open spec fn looks_like_a_time(tag: Seq<char>) -> bool {
    &&& tag.len() >= 19
    &&& digit_at(tag, 0) && digit_at(tag, 1) && digit_at(tag, 2) && digit_at(tag, 3)
    &&& tag[4] == '-' && digit_at(tag, 5) && digit_at(tag, 6)
    &&& tag[7] == '-' && digit_at(tag, 8) && digit_at(tag, 9)
    &&& tag[10] == 'T' || tag[10] == 't'
    &&& digit_at(tag, 11) && digit_at(tag, 12)
    &&& tag[13] == ':' && digit_at(tag, 14) && digit_at(tag, 15)
    &&& tag[16] == ':' && digit_at(tag, 17) && digit_at(tag, 18)
}

/// The date and the time of day that the tag writes exist.
pub open spec fn exists_in_the_calendar(tag: Seq<char>) -> bool {
    let year = 100 * pair(tag, 0) + pair(tag, 2);
    let month = pair(tag, 5);
    let day = pair(tag, 8);
    let leap_year = year % 4 == 0 && (year % 100 != 0 || year % 400 == 0);
    &&& 1 <= month <= 12
    &&& 1 <= day <= 31
    &&& month == 4 || month == 6 || month == 9 || month == 11 ==> day <= 30
    &&& month == 2 ==> day <= 29
    &&& month == 2 && !leap_year ==> day <= 28
    &&& pair(tag, 11) <= 23
    &&& pair(tag, 14) <= 59
    &&& pair(tag, 17) <= 60
}

/// A time without a fraction names an instant at `Z` and at every offset, exactly where its
/// date and time of day exist. At an offset ahead of UTC the instant is earlier than at `Z`
/// by that offset, at one behind it later.
pub proof fn an_offset_shifts_the_instant(time: Seq<char>, offset: Seq<char>)
    requires
        time.len() == 19,
        offset.len() == 6,
        offset[0] == '+' || offset[0] == '-',
        digit_at(offset, 1) && digit_at(offset, 2) && offset[3] == ':' && digit_at(offset, 4)
            && digit_at(offset, 5),
        pair(offset, 1) <= 23,
        pair(offset, 4) <= 59,
    ensures
        instants::instant(time + seq!['Z']) is Some <==> looks_like_a_time(time)
            && exists_in_the_calendar(time),
        instants::instant(time + offset) is Some <==> instants::instant(time + seq!['Z']) is Some,
        instants::instant(time + seq!['Z']) matches Some(utc) ==> {
            let local = instants::instant(time + offset)->0;
            let minutes = 60 * pair(offset, 1) + pair(offset, 4);
            &&& local.leap == utc.leap
            &&& local.fraction.len() == 0 && utc.fraction.len() == 0
            &&& offset[0] == '+' ==> local.seconds == utc.seconds - 60 * minutes
            &&& offset[0] == '-' ==> local.seconds == utc.seconds + 60 * minutes
        },
{
    let a = time + seq!['Z'];
    let b = time + offset;
    assert(a.skip(19) =~= seq!['Z']);
    assert(b.skip(19) =~= offset);
    assert forall|i: int| 0 <= i < 19 implies a[i] == time[i] && b[i] == time[i] by {}
    assert(a[19] == 'Z');
    assert(b[19] == offset[0]);
    assert(!instants::has_fraction(a));
    assert(!instants::has_fraction(b));
    lemma_date_and_time(a, time);
    lemma_date_and_time(b, time);
    assert(instants::wall_clock(a) == instants::wall_clock(b));
}

proof fn lemma_date_and_time(tag: Seq<char>, time: Seq<char>)
    requires
        time.len() == 19,
        tag.len() >= 19,
        forall|i: int| 0 <= i < 19 ==> #[trigger] tag[i] == time[i],
    ensures
        instants::has_date_and_time(tag) <==> looks_like_a_time(time) && exists_in_the_calendar(
            time,
        ),
        instants::wall_clock(tag) == instants::wall_clock(time),
        instants::in_leap_second(tag) == instants::in_leap_second(time),
{
    assert(tag[0] == time[0] && tag[1] == time[1] && tag[2] == time[2] && tag[3] == time[3]);
    assert(tag[4] == time[4] && tag[5] == time[5] && tag[6] == time[6] && tag[7] == time[7]);
    assert(tag[8] == time[8] && tag[9] == time[9] && tag[10] == time[10] && tag[11] == time[11]);
    assert(tag[12] == time[12] && tag[13] == time[13] && tag[14] == time[14]);
    assert(tag[15] == time[15] && tag[16] == time[16] && tag[17] == time[17]);
    assert(tag[18] == time[18]);
}

/// Of two times at one offset, the seconds between them are those of their days, hours,
/// minutes and seconds.
pub proof fn the_seconds_between_two_times(a: Seq<char>, b: Seq<char>)
    requires
        a.len() == 20,
        b.len() == 20,
        a[19] == 'Z',
        b[19] == 'Z',
        instants::instant(a) is Some,
        instants::instant(b) is Some,
        pair(a, 17) < 60,
        pair(b, 17) < 60,
    ensures
        instants::instant(b)->0.seconds - instants::instant(a)->0.seconds == 86400 * (
        instants::day_number(100 * pair(b, 0) + pair(b, 2), pair(b, 5), pair(b, 8))
            - instants::day_number(100 * pair(a, 0) + pair(a, 2), pair(a, 5), pair(a, 8))) + 3600
            * (pair(b, 11) - pair(a, 11)) + 60 * (pair(b, 14) - pair(a, 14)) + (pair(b, 17)
            - pair(a, 17)),
        !instants::instant(a)->0.leap,
{
    assert(a.skip(19) =~= seq!['Z']);
    assert(b.skip(19) =~= seq!['Z']);
}

/// A leap second comes behind the second before it and before the second that follows.
pub proof fn a_leap_second_comes_between(
    before: instants::Instant,
    within: instants::Instant,
    after: instants::Instant,
)
    requires
        before.seconds == within.seconds,
        after.seconds == within.seconds + 1,
        !before.leap,
        within.leap,
    ensures
        instants::earlier(before, within),
        instants::earlier(within, after),
{
}

proof fn lemma_digits_end_at(tag: Seq<char>, from: int, to: int)
    requires
        0 <= from <= to < tag.len(),
        forall|i: int| from <= i < to ==> instants::is_digit(#[trigger] tag[i]),
        !instants::is_digit(tag[to]),
    ensures
        instants::digits_end(tag, from) == to,
    decreases to - from,
{
    if from < to {
        assert(instants::is_digit(tag[from]));
        lemma_digits_end_at(tag, from + 1, to);
    }
}

proof fn lemma_without_end_zeros(s: Seq<char>) -> (n: int)
    ensures
        0 <= n <= s.len(),
        instants::without_end_zeros(s) == s.take(n),
        n > 0 ==> s[n - 1] != '0',
        forall|i: int| n <= i < s.len() ==> #[trigger] s[i] == '0',
    decreases s.len(),
{
    if s.len() > 0 && s.last() == '0' {
        let n = lemma_without_end_zeros(s.drop_last());
        assert(s.drop_last().take(n) =~= s.take(n));
        assert forall|i: int| n <= i < s.len() implies #[trigger] s[i] == '0' by {
            if i < s.len() - 1 {
                assert(s.drop_last()[i] == s[i]);
            }
        }
        if n > 0 {
            assert(s.drop_last()[n - 1] == s[n - 1]);
        }
        n
    } else {
        assert(s.take(s.len() as int) =~= s);
        s.len() as int
    }
}

/// A fraction of a second adds its digits, without the zeros at their end, and changes
/// nothing else.
pub proof fn a_fraction_adds_its_digits(time: Seq<char>, digits: Seq<char>)
    requires
        time.len() == 19,
        instants::instant(time + seq!['Z']) is Some,
        digits.len() > 0,
        forall|i: int| 0 <= i < digits.len() ==> '0' as int <= #[trigger] digits[i] as int
            <= '9' as int,
    ensures
        ({
            let whole = instants::instant(time + seq!['Z'])->0;
            let tag = time + seq!['.'] + digits + seq!['Z'];
            &&& instants::instant(tag) is Some
            &&& instants::instant(tag)->0.seconds == whole.seconds
            &&& instants::instant(tag)->0.leap == whole.leap
            &&& exists|n: int|
                {
                    &&& 0 <= n <= digits.len()
                    &&& instants::instant(tag)->0.fraction == #[trigger] digits.take(n)
                    &&& n > 0 ==> digits[n - 1] != '0'
                    &&& forall|i: int| n <= i < digits.len() ==> #[trigger] digits[i] == '0'
                }
        }),
{
    let a = time + seq!['Z'];
    let tag = time + seq!['.'] + digits + seq!['Z'];
    let end = 20 + digits.len();
    assert(a.skip(19) =~= seq!['Z']);
    assert(a[19] == 'Z');
    assert(!instants::has_fraction(a));
    assert(tag[19] == '.');
    assert forall|i: int| 20 <= i < end implies instants::is_digit(#[trigger] tag[i]) by {
        assert(tag[i] == digits[i - 20]);
    }
    assert(instants::is_digit(tag[20]));
    assert(tag[end as int] == 'Z');
    lemma_digits_end_at(tag, 20, end as int);
    assert(tag.subrange(20, end as int) =~= digits);
    assert(tag.skip(end as int) =~= seq!['Z']);
    assert forall|i: int| 0 <= i < 19 implies #[trigger] a[i] == time[i] by {}
    assert forall|i: int| 0 <= i < 19 implies #[trigger] tag[i] == time[i] by {}
    lemma_date_and_time(a, time);
    lemma_date_and_time(tag, time);
    let n = lemma_without_end_zeros(digits);
    assert(instants::instant(tag)->0.fraction == digits.take(n));
}

/// Of two instants the one with the lesser second is earlier; within one second a leap second
/// is later, and of two with the same second the fractions decide, as texts.
pub proof fn instants_go_by_their_seconds(a: instants::Instant, b: instants::Instant)
    ensures
        a.seconds < b.seconds ==> instants::earlier(a, b) && !instants::earlier(b, a),
        a.seconds == b.seconds && !a.leap && b.leap ==> instants::earlier(a, b)
            && !instants::earlier(b, a),
        a.seconds == b.seconds && a.leap == b.leap ==> (instants::earlier(a, b)
            <==> text::text_before(a.fraction, b.fraction)),
{
}

/// The second 60 is a leap second within the second 59.
pub proof fn the_sixtieth_second_is_a_leap_second(minute: Seq<char>, rest: Seq<char>)
    requires
        minute.len() == 17,
        rest.len() == 1 || rest.len() == 6,
        instants::instant(minute + seq!['5', '9'] + rest) is Some,
    ensures
        ({
            let last = instants::instant(minute + seq!['5', '9'] + rest)->0;
            let leap = instants::instant(minute + seq!['6', '0'] + rest);
            &&& leap is Some
            &&& leap->0.leap
            &&& !last.leap
            &&& leap->0.seconds == last.seconds
        }),
{
    let a = minute + seq!['5', '9'] + rest;
    let b = minute + seq!['6', '0'] + rest;
    assert forall|i: int| 0 <= i < 17 implies #[trigger] a[i] == b[i] by {
        assert(a[i] == minute[i]);
    }
    assert(a[17] == '5' && a[18] == '9' && b[17] == '6' && b[18] == '0');
    assert(a.skip(19) =~= rest);
    assert(b.skip(19) =~= rest);
    if rest.len() == 6 {
        assert(a[19] == rest[0] && b[19] == rest[0] && a[20] == rest[1] && b[20] == rest[1]);
        if instants::has_fraction(a) {
            lemma_digits_end_is_within(a, 20);
            let at = instants::digits_end(a, 20);
            assert(a.skip(at).len() <= 4);
            assert(a.skip(at).len() == 1);
            assert(at == 24);
            lemma_same_end(a, b, 20);
        }
    }
}

proof fn lemma_digits_end_is_within(tag: Seq<char>, at: int)
    requires
        0 <= at <= tag.len(),
    ensures
        at <= instants::digits_end(tag, at) <= tag.len(),
        at < tag.len() && instants::is_digit(tag[at]) ==> at < instants::digits_end(tag, at),
    decreases tag.len() - at,
{
    if at < tag.len() && instants::is_digit(tag[at]) {
        lemma_digits_end_is_within(tag, at + 1);
    }
}

proof fn lemma_same_end(a: Seq<char>, b: Seq<char>, at: int)
    requires
        0 <= at <= a.len(),
        a.len() == b.len(),
        forall|i: int| at <= i < a.len() ==> #[trigger] a[i] == b[i],
    ensures
        instants::digits_end(a, at) == instants::digits_end(b, at),
    decreases a.len() - at,
{
    if at < a.len() {
        assert(a[at] == b[at]);
        lemma_same_end(a, b, at + 1);
    }
}

/// Behind a time there is a `Z`, small or capital, or a sign with two digits for the hours, up
/// to 23, a colon, and two digits for the minutes, up to 59. A tag with anything else there
/// names no instant.
pub proof fn an_offset_is_zulu_or_hours_and_minutes(time: Seq<char>, rest: Seq<char>)
    requires
        time.len() == 19,
        rest.len() > 0 ==> rest[0] != '.',
    ensures
        instants::instant(time + rest) is Some ==> {
            ||| rest == seq!['Z']
            ||| rest == seq!['z']
            ||| {
                &&& rest.len() == 6
                &&& rest[0] == '+' || rest[0] == '-'
                &&& digit_at(rest, 1) && digit_at(rest, 2) && pair(rest, 1) <= 23
                &&& rest[3] == ':'
                &&& digit_at(rest, 4) && digit_at(rest, 5) && pair(rest, 4) <= 59
            }
        },
        instants::instant(time + seq!['z']) == instants::instant(time + seq!['Z']),
{
    let tag = time + rest;
    assert(tag.skip(19) =~= rest);
    if rest.len() > 0 {
        assert(tag[19] == rest[0]);
    }
    if rest.len() == 1 {
        assert(rest =~= seq![rest[0]]);
    }
    let a = time + seq!['Z'];
    let b = time + seq!['z'];
    assert(a.skip(19) =~= seq!['Z']);
    assert(b.skip(19) =~= seq!['z']);
    lemma_date_and_time(a, time);
    lemma_date_and_time(b, time);
}

/// A fraction may stand before any offset: it changes neither whether the tag names an instant
/// nor the second, and its digits count as they do before a `Z`.
pub proof fn a_fraction_may_stand_before_any_offset(
    time: Seq<char>,
    digits: Seq<char>,
    rest: Seq<char>,
)
    requires
        time.len() == 19,
        digits.len() > 0,
        forall|i: int| 0 <= i < digits.len() ==> '0' as int <= #[trigger] digits[i] as int
            <= '9' as int,
        rest.len() > 0,
        rest[0] != '.',
        !('0' as int <= rest[0] as int <= '9' as int),
    ensures
        ({
            let whole = instants::instant(time + rest);
            let with = instants::instant(time + seq!['.'] + digits + rest);
            &&& with is Some <==> whole is Some
            &&& with is Some ==> {
                &&& with->0.seconds == whole->0.seconds
                &&& with->0.leap == whole->0.leap
                &&& whole->0.fraction.len() == 0
                &&& with->0.fraction == instants::without_end_zeros(digits)
            }
        }),
{
    let a = time + rest;
    let b = time + seq!['.'] + digits + rest;
    let end = 20 + digits.len() as int;
    assert(a[19] == rest[0]);
    assert(b[19] == '.');
    assert(b[20] == digits[0]);
    assert forall|i: int| 20 <= i < end implies instants::is_digit(#[trigger] b[i]) by {
        assert(b[i] == digits[i - 20]);
    }
    assert(b[end] == rest[0]);
    lemma_digits_end_at(b, 20, end);
    lemma_date_and_time(a, time);
    lemma_date_and_time(b, time);
    assert(a.skip(19) =~= rest);
    assert(b.skip(end) =~= rest);
    assert(b.subrange(20, end) =~= digits);
}

/// The views of versions are what the versions hold, each in its place.
pub proof fn the_versions_are_those_held(vs: Seq<versions::Version>, f: versions::FileHistory)
    ensures
        versions::version_views(vs).len() == vs.len(),
        forall|i: int|
            0 <= i < vs.len() ==> (#[trigger] versions::version_views(vs)[i]).tag == vs[i].tag@
                && versions::version_views(vs)[i].size == vs[i].size,
        f@.path == f.path@,
        f@.versions == versions::version_views(f.versions@),
{
}

} // verus!
