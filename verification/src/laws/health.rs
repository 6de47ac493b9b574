//! Laws on the health check.

use vstd::prelude::*;

use crate::agent;
use crate::agent::{PeerView, ShareState};
use crate::commands::doctor;
use crate::commands::doctor::{AgentFacts, Check, CheckView, Facts, FolderFacts, Level, RestFacts};
use crate::json;
use crate::json::Json;
use crate::laws::archive;
use crate::laws::documents;
use crate::laws::texts;
use crate::text;

verus! {

/// Some check has the level.
pub open spec fn has_level(cs: Seq<CheckView>, level: Level) -> bool {
    exists|i: int| 0 <= i < cs.len() && (#[trigger] cs[i]).level == level
}

proof fn lemma_has_level_add(a: Seq<CheckView>, b: Seq<CheckView>, level: Level)
    ensures
        has_level(a + b, level) == (has_level(a, level) || has_level(b, level)),
{
    let s = a + b;
    if has_level(s, level) {
        let i = choose|i: int| 0 <= i < s.len() && (#[trigger] s[i]).level == level;
        if i < a.len() {
            assert(a[i].level == level);
        } else {
            assert(b[i - a.len()].level == level);
        }
    }
    if has_level(a, level) {
        let i = choose|i: int| 0 <= i < a.len() && (#[trigger] a[i]).level == level;
        assert(s[i].level == level);
    }
    if has_level(b, level) {
        let i = choose|i: int| 0 <= i < b.len() && (#[trigger] b[i]).level == level;
        assert(s[i + a.len()].level == level);
    }
}

/// The folder is registered under an id and has a path at which there is no directory.
pub open spec fn lacks_directory(f: FolderFacts) -> bool {
    &&& archive::text_at(json::json(f.config), "id"@) is Some
    &&& archive::text_at(json::json(f.config), "path"@) is Some
    &&& !f.on_disk
}

/// The folder is registered under an id and names no kind of history.
pub open spec fn lacks_history(f: FolderFacts) -> bool {
    &&& archive::text_at(json::json(f.config), "id"@) is Some
    &&& !(exists|kind: Seq<char>| #[trigger] keeps(json::json(f.config), kind) && kind.len() > 0)
}

/// The configuration names the kind of history.
pub open spec fn keeps(config: Json, kind: Seq<char>) -> bool {
    match config {
        Json::Object(m) => m.contains_key("versioning"@) && archive::text_at(
            m["versioning"@],
            "type"@,
        ) == Some(kind),
        _ => false,
    }
}

proof fn lemma_names_where(
    fs: Seq<FolderFacts>,
    pred: spec_fn(FolderFacts) -> bool,
    lacks: spec_fn(FolderFacts) -> bool,
)
    requires
        forall|i: int|
            0 <= i < fs.len() ==> (lacks(#[trigger] fs[i]) <==> pred(fs[i]) && json::json(
                fs[i].config,
            ).member_text("id"@) is Some),
    ensures
        doctor::names_where(fs, pred).len() == fs.filter(lacks).len(),
        forall|k: int|
            0 <= k < fs.filter(lacks).len() ==> #[trigger] doctor::names_where(fs, pred)[k]
                == fs.filter(lacks)[k].name@,
    decreases fs.len(),
{
    reveal(Seq::filter);
    if fs.len() > 0 {
        let rest = fs.drop_last();
        assert forall|i: int| 0 <= i < rest.len() implies (lacks(#[trigger] rest[i]) <==> pred(
            rest[i],
        ) && json::json(rest[i].config).member_text("id"@) is Some) by {
            assert(rest[i] == fs[i]);
        }
        lemma_names_where(rest, pred, lacks);
        assert(fs.last() == fs[fs.len() - 1]);
    }
}

proof fn lemma_lacks(f: FolderFacts)
    ensures
        lacks_directory(f) <==> doctor::is_missing(f) && json::json(f.config).member_text("id"@)
            is Some,
        lacks_history(f) <==> doctor::keeps_no_history(f) && json::json(f.config).member_text(
            "id"@,
        ) is Some,
{
    let config = json::json(f.config);
    match doctor::history_kind(config) {
        Some(kind) => {
            assert(keeps(config, kind));
        },
        None => {},
    }
    if exists|kind: Seq<char>| #[trigger] keeps(config, kind) && kind.len() > 0 {
        let kind = choose|kind: Seq<char>| #[trigger] keeps(config, kind) && kind.len() > 0;
        assert(doctor::history_kind(config) == Some(kind));
    }
}

proof fn lemma_filter_is_empty<A>(s: Seq<A>, pred: spec_fn(A) -> bool)
    ensures
        s.filter(pred).len() == 0 <==> forall|i: int| 0 <= i < s.len() ==> !pred(#[trigger] s[i]),
{
    if forall|i: int| 0 <= i < s.len() ==> !pred(#[trigger] s[i]) {
        s.lemma_all_neg_filter_empty(pred);
    } else {
        let i = choose|i: int| 0 <= i < s.len() && pred(#[trigger] s[i]);
        s.lemma_filter_contains(pred, i);
    }
}

proof fn lemma_missing(fs: Seq<FolderFacts>)
    ensures
        ({
            let lacking = fs.filter(|f: FolderFacts| lacks_directory(f));
            &&& doctor::missing_names(fs).len() == lacking.len()
            &&& forall|k: int|
                0 <= k < lacking.len() ==> #[trigger] doctor::missing_names(fs)[k]
                    == lacking[k].name@
        }),
{
    assert forall|i: int| 0 <= i < fs.len() implies (lacks_directory(#[trigger] fs[i])
        <==> doctor::is_missing(fs[i]) && json::json(fs[i].config).member_text("id"@) is Some) by {
        lemma_lacks(fs[i]);
    }
    lemma_names_where(
        fs,
        |f: FolderFacts| doctor::is_missing(f),
        |f: FolderFacts| lacks_directory(f),
    );
}

proof fn lemma_historyless(fs: Seq<FolderFacts>)
    ensures
        ({
            let lacking = fs.filter(|f: FolderFacts| lacks_history(f));
            &&& doctor::historyless_names(fs).len() == lacking.len()
            &&& forall|k: int|
                0 <= k < lacking.len() ==> #[trigger] doctor::historyless_names(fs)[k]
                    == lacking[k].name@
        }),
{
    assert forall|i: int| 0 <= i < fs.len() implies (lacks_history(#[trigger] fs[i])
        <==> doctor::keeps_no_history(fs[i]) && json::json(fs[i].config).member_text("id"@)
        is Some) by {
        lemma_lacks(fs[i]);
    }
    lemma_names_where(
        fs,
        |f: FolderFacts| doctor::keeps_no_history(f),
        |f: FolderFacts| lacks_history(f),
    );
}

proof fn lemma_name_is_told(
    names: Seq<Seq<char>>,
    before: Seq<char>,
    detail: Seq<char>,
    k: int,
)
    requires
        0 <= k < names.len(),
        detail == before + text::joined(names, ", "@),
    ensures
        texts::occurs(names[k], detail),
{
    texts::a_joined_text_occurs(names, ", "@, k);
    let none = Seq::<char>::empty();
    texts::a_part_of_a_part_occurs(names[k], before, text::joined(names, ", "@), none);
    assert(before + text::joined(names, ", "@) + none =~= detail);
}

/// The checks of the folders have one of level Fail exactly where some registered folder
/// has no directory at its path. It counts those folders and names each of them.
pub proof fn a_missing_directory_fails_the_check(fs: Seq<FolderFacts>)
    ensures
        has_level(doctor::folder_checks(fs), Level::Fail) <==> exists|i: int|
            0 <= i < fs.len() && lacks_directory(#[trigger] fs[i]),
        has_level(doctor::folder_checks(fs), Level::Fail) ==> {
            let c = doctor::folder_checks(fs)[0];
            &&& doctor::folder_checks(fs).len() == 1
            &&& c.level == Level::Fail
            &&& c.name == "folders"@
            &&& c.detail == text::decimal(fs.filter(|f: FolderFacts| lacks_directory(f)).len())
                + " folder(s) point at a missing directory: "@ + text::joined(
                fs.filter(|f: FolderFacts| lacks_directory(f)).map_values(
                    |f: FolderFacts| f.name@,
                ),
                ", "@,
            )
            &&& forall|i: int|
                0 <= i < fs.len() && lacks_directory(#[trigger] fs[i]) ==> texts::occurs(
                    fs[i].name@,
                    c.detail,
                )
        },
{
    let lacking = |f: FolderFacts| lacks_directory(f);
    lemma_missing(fs);
    lemma_filter_is_empty(fs, lacking);
    let checks = doctor::folder_checks(fs);
    let names = doctor::missing_names(fs);
    if exists|i: int| 0 <= i < fs.len() && lacks_directory(#[trigger] fs[i]) {
        let i = choose|i: int| 0 <= i < fs.len() && lacks_directory(#[trigger] fs[i]);
        assert(lacking(fs[i]));
        assert(names.len() > 0);
        assert(checks[0].level == Level::Fail);
        let c = checks[0];
        let count = text::decimal(names.len());
        let middle = " folder(s) point at a missing directory: "@;
        assert(c.detail == count + middle + text::joined(names, ", "@));
        assert(names =~= fs.filter(lacking).map_values(|f: FolderFacts| f.name@));
        assert forall|i: int|
            0 <= i < fs.len() && lacks_directory(#[trigger] fs[i]) implies texts::occurs(
            fs[i].name@,
            c.detail,
        ) by {
            fs.lemma_filter_contains(lacking, i);
            let k = choose|k: int|
                0 <= k < fs.filter(lacking).len() && fs.filter(lacking)[k] == fs[i];
            assert(names[k] == fs[i].name@);
            lemma_name_is_told(names, count + middle, c.detail, k);
        }
    } else {
        assert forall|i: int| 0 <= i < fs.len() implies !lacking(#[trigger] fs[i]) by {}
        assert(names.len() == 0);
    }
}

/// Where there are folders and each has its directory, they are counted. Those that keep no
/// history are warned of, and each is named; there is no such warning where all keep some.
pub proof fn folders_without_history_are_warned_of(fs: Seq<FolderFacts>)
    requires
        fs.len() > 0,
        forall|i: int| 0 <= i < fs.len() ==> !lacks_directory(#[trigger] fs[i]),
    ensures
        ({
            let checks = doctor::folder_checks(fs);
            let without = fs.filter(|f: FolderFacts| lacks_history(f));
            &&& checks.len() == 2
            &&& checks[0].level == Level::Okay
            &&& checks[0].name == "folders"@
            &&& checks[0].detail == text::decimal(fs.len()) + " registered"@
            &&& checks[1].name == "file history"@
            &&& checks[1].level == (if exists|i: int|
                0 <= i < fs.len() && lacks_history(#[trigger] fs[i]) {
                Level::Warn
            } else {
                Level::Okay
            })
            &&& checks[1].detail == (if without.len() == 0 {
                "staggered on all folders"@
            } else {
                text::decimal(without.len()) + " folder(s) keep no local history: "@
                    + text::joined(without.map_values(|f: FolderFacts| f.name@), ", "@)
            })
            &&& forall|i: int|
                0 <= i < fs.len() && lacks_history(#[trigger] fs[i]) ==> texts::occurs(
                    fs[i].name@,
                    checks[1].detail,
                )
        }),
{
    let missing = |f: FolderFacts| lacks_directory(f);
    let lacking = |f: FolderFacts| lacks_history(f);
    lemma_missing(fs);
    lemma_historyless(fs);
    assert forall|i: int| 0 <= i < fs.len() implies !missing(#[trigger] fs[i]) by {}
    lemma_filter_is_empty(fs, missing);
    lemma_filter_is_empty(fs, lacking);
    let checks = doctor::folder_checks(fs);
    let names = doctor::historyless_names(fs);
    if exists|i: int| 0 <= i < fs.len() && lacks_history(#[trigger] fs[i]) {
        let i = choose|i: int| 0 <= i < fs.len() && lacks_history(#[trigger] fs[i]);
        assert(lacking(fs[i]));
        assert(names.len() > 0);
        let c = checks[1];
        let count = text::decimal(names.len());
        let middle = " folder(s) keep no local history: "@;
        assert(c.detail == count + middle + text::joined(names, ", "@));
        assert(names =~= fs.filter(lacking).map_values(|f: FolderFacts| f.name@));
        assert forall|i: int|
            0 <= i < fs.len() && lacks_history(#[trigger] fs[i]) implies texts::occurs(
            fs[i].name@,
            c.detail,
        ) by {
            fs.lemma_filter_contains(lacking, i);
            let k = choose|k: int|
                0 <= k < fs.filter(lacking).len() && fs.filter(lacking)[k] == fs[i];
            assert(names[k] == fs[i].name@);
            lemma_name_is_told(names, count + middle, c.detail, k);
        }
    } else {
        assert forall|i: int| 0 <= i < fs.len() implies !lacking(#[trigger] fs[i]) by {}
    }
}

/// Without folders there is a warning and nothing else.
pub proof fn no_folders_are_warned_of(fs: Seq<FolderFacts>)
    requires
        fs.len() == 0,
    ensures
        doctor::folder_checks(fs).len() == 1,
        doctor::folder_checks(fs)[0].level == Level::Warn,
        doctor::folder_checks(fs)[0].name == "folders"@,
        doctor::folder_checks(fs)[0].detail == "none registered"@,
{
}

/// The connected peers are counted against all of them; it is well where one is connected.
pub proof fn connected_peers_are_counted(
    peers: Seq<PeerView>,
    clean: spec_fn(Seq<char>) -> Seq<char>,
)
    ensures
        ({
            let checks = doctor::peer_checks(peers, clean);
            let connected = exists|i: int| 0 <= i < peers.len() && (#[trigger] peers[i]).connected;
            &&& checks.len() == (if connected {
                2nat
            } else {
                1nat
            })
            &&& checks[0].name == "peers"@
            &&& checks[0].level == (if connected {
                Level::Okay
            } else {
                Level::Warn
            })
            &&& peers.len() > 0 ==> checks[0].detail == text::decimal(
                peers.filter(|p: PeerView| p.connected).len(),
            ) + "/"@ + text::decimal(peers.len()) + " connected"@
            &&& peers.len() == 0 ==> checks[0].detail == "none paired"@
        }),
{
    lemma_filter_is_empty(peers, |p: PeerView| p.connected);
}

/// Where a peer is connected, the sharing is warned of exactly where some peer does not
/// share back or is still establishing the share; the former come first, and each peer that
/// the warning is about is named, sanitized.
pub proof fn peers_that_do_not_share_are_named(
    peers: Seq<PeerView>,
    clean: spec_fn(Seq<char>) -> Seq<char>,
)
    requires
        exists|i: int| 0 <= i < peers.len() && (#[trigger] peers[i]).connected,
    ensures
        ({
            let c = doctor::peer_checks(peers, clean)[1];
            let some_stalled = exists|i: int|
                0 <= i < peers.len() && (#[trigger] peers[i]).state == ShareState::NotSharingBack;
            let some_establishing = exists|i: int|
                0 <= i < peers.len() && (#[trigger] peers[i]).state == ShareState::Establishing;
            &&& c.name == "folder share"@
            &&& c.level == (if some_stalled || some_establishing {
                Level::Warn
            } else {
                Level::Okay
            })
            &&& some_stalled ==> {
                let them = peers.filter(|p: PeerView| p.state == ShareState::NotSharingBack);
                c.detail == text::decimal(them.len())
                    + " connected peer(s) not sharing a folder back: "@ + text::joined(
                    them.map_values(|p: PeerView| clean(p.label)),
                    ", "@,
                )
            }
            &&& !some_stalled && some_establishing ==> {
                let them = peers.filter(|p: PeerView| p.state == ShareState::Establishing);
                c.detail == text::decimal(them.len())
                    + " peer(s) still establishing the share (connected, not yet in sync): "@
                    + text::joined(them.map_values(|p: PeerView| clean(p.label)), ", "@)
            }
            &&& forall|i: int|
                0 <= i < peers.len() && (#[trigger] peers[i]).state == ShareState::NotSharingBack
                    ==> texts::occurs(clean(peers[i].label), c.detail)
            &&& !some_stalled ==> forall|i: int|
                0 <= i < peers.len() && (#[trigger] peers[i]).state == ShareState::Establishing
                    ==> texts::occurs(clean(peers[i].label), c.detail)
            &&& !some_stalled && !some_establishing ==> c.detail == "shared both ways with "@
                + text::decimal(peers.filter(|p: PeerView| p.connected).len()) + " peer(s)"@
        }),
{
    let stalled = |p: PeerView| p.state == ShareState::NotSharingBack;
    let establishing = |p: PeerView| p.state == ShareState::Establishing;
    lemma_filter_is_empty(peers, |p: PeerView| p.connected);
    lemma_filter_is_empty(peers, stalled);
    lemma_filter_is_empty(peers, establishing);
    let c = doctor::peer_checks(peers, clean)[1];
    assert(c == doctor::share_check(peers, clean));
    let one = doctor::peers_in(peers, ShareState::NotSharingBack);
    let two = doctor::peers_in(peers, ShareState::Establishing);
    assert(one == peers.filter(stalled));
    assert(two == peers.filter(establishing));
    if one.len() > 0 {
        let count = text::decimal(one.len());
        let middle = " connected peer(s) not sharing a folder back: "@;
        let names = doctor::shown_labels(one, clean);
        assert(c.detail == count + middle + text::joined(names, ", "@));
        assert forall|i: int|
            0 <= i < peers.len() && (#[trigger] peers[i]).state
                == ShareState::NotSharingBack implies texts::occurs(
            clean(peers[i].label),
            c.detail,
        ) by {
            assert(stalled(peers[i]));
            peers.lemma_filter_contains(stalled, i);
            let k = choose|k: int| 0 <= k < one.len() && one[k] == peers[i];
            assert(names[k] == clean(peers[i].label));
            lemma_name_is_told(names, count + middle, c.detail, k);
        }
    } else {
        assert forall|i: int| 0 <= i < peers.len() implies (#[trigger] peers[i]).state
            != ShareState::NotSharingBack by {
            assert(!stalled(peers[i]));
        }
        if two.len() > 0 {
            let count = text::decimal(two.len());
            let middle = " peer(s) still establishing the share (connected, not yet in sync): "@;
            let names = doctor::shown_labels(two, clean);
            assert(c.detail == count + middle + text::joined(names, ", "@));
            assert forall|i: int|
                0 <= i < peers.len() && (#[trigger] peers[i]).state
                    == ShareState::Establishing implies texts::occurs(
                clean(peers[i].label),
                c.detail,
            ) by {
                assert(establishing(peers[i]));
                peers.lemma_filter_contains(establishing, i);
                let k = choose|k: int| 0 <= k < two.len() && two[k] == peers[i];
                assert(names[k] == clean(peers[i].label));
                lemma_name_is_told(names, count + middle, c.detail, k);
            }
        } else {
            assert forall|i: int| 0 <= i < peers.len() implies (#[trigger] peers[i]).state
                != ShareState::Establishing by {
                assert(!establishing(peers[i]));
            }
        }
    }
}

/// Conflict files are warned of, with their number, exactly where there are any.
pub proof fn conflict_files_are_warned_of(count: nat)
    ensures
        count == 0 ==> doctor::conflict_checks(count).len() == 0,
        count > 0 ==> {
            &&& doctor::conflict_checks(count).len() == 1
            &&& doctor::conflict_checks(count)[0].level == Level::Warn
            &&& doctor::conflict_checks(count)[0].name == "conflicts"@
            &&& doctor::conflict_checks(count)[0].detail == text::decimal(count)
                + " sync-conflict file(s)"@
        },
{
}

/// Conflict files are looked for below the path of each folder that has one, in the order of
/// the folders, and the counts are summed up.
pub proof fn every_path_is_looked_at(
    a: Seq<Json>,
    b: Seq<Json>,
    config: Json,
    m: Seq<usize>,
    n: Seq<usize>,
    count: usize,
)
    ensures
        doctor::paths_in(a + b) == doctor::paths_in(a) + doctor::paths_in(b),
        archive::text_at(config, "path"@) matches Some(path) ==> doctor::paths_in(seq![config])
            == seq![path],
        archive::text_at(config, "path"@) is None ==> doctor::paths_in(seq![config]).len() == 0,
        doctor::total(m + n) == doctor::total(m) + doctor::total(n),
        doctor::total(seq![count]) == count,
    decreases b.len() + n.len(),
{
    assert(seq![config].drop_last() =~= Seq::<Json>::empty());
    assert(doctor::paths_in(seq![config].drop_last()) =~= Seq::<Seq<char>>::empty());
    assert(seq![count].drop_last() =~= Seq::<usize>::empty());
    assert(doctor::total(seq![count].drop_last()) == 0);
    if b.len() > 0 {
        every_path_is_looked_at(a, b.drop_last(), config, m, n, count);
        assert((a + b).drop_last() =~= a + b.drop_last());
        assert(doctor::paths_in(a + b) =~= doctor::paths_in(a) + doctor::paths_in(b));
    } else {
        assert(a + b =~= a);
        assert(doctor::paths_in(a + b) =~= doctor::paths_in(a) + doctor::paths_in(b));
    }
    if n.len() > 0 {
        every_path_is_looked_at(a, b, config, m, n.drop_last(), count);
        assert((m + n).drop_last() =~= m + n.drop_last());
    } else {
        assert(m + n =~= m);
    }
}

/// A secrets file is in order exactly where no group or other bit of its mode is set.
pub proof fn a_mode_is_in_order_without_group_and_other_bits(mode: u32)
    ensures
        doctor::owner_only(mode) <==> mode & 0o077 == 0,
        doctor::secrets_check(Some(mode)).level == (if mode & 0o077 == 0 {
            Level::Okay
        } else {
            Level::Fail
        }),
        doctor::secrets_check(None).level == Level::Warn,
        mode & 0o077 != 0 ==> text::octal4((mode & 0o777) as nat).is_prefix_of(
            doctor::secrets_check(Some(mode)).detail,
        ),
{
    assert(mode % 0o100 == 0 <==> mode & 0o077 == 0) by (bit_vector);
    assert((mode % 0o1000) % 0o100 == 0 <==> mode & 0o077 == 0) by (bit_vector);
    assert(mode % 0o1000 == mode & 0o777) by (bit_vector);
    let octal = text::octal4((mode & 0o777) as nat);
    if mode & 0o077 != 0 {
        let detail = doctor::secrets_check(Some(mode)).detail;
        assert(detail == octal + " (should be 0600)"@);
        assert(detail.subrange(0, octal.len() as int) =~= octal);
    }
}

/// Something is broken: the binary is not there, the secrets can be read by others, the
/// agent's state cannot be loaded, its endpoint cannot be reached, or a registered folder
/// has no directory.
pub open spec fn is_broken(f: Facts) -> bool {
    ||| !f.binary_present
    ||| f.secrets_mode matches Some(mode) && mode & 0o077 != 0
    ||| f.agent is Unknown
    ||| f.agent is Running && f.agent->rest is Unreachable
    ||| f.agent is Running && f.agent->rest is Reachable && exists|i: int|
        0 <= i < f.agent->rest->folders@.len() && lacks_directory(
            #[trigger] f.agent->rest->folders@[i],
        )
}

/// All is well: nothing is broken or missing, there are folders and all keep history, there
/// are peers, one is connected and all share back, and there are no conflict files.
pub open spec fn is_well(f: Facts) -> bool {
    &&& !is_broken(f)
    &&& f.config_file is Some
    &&& f.secrets_mode is Some
    &&& f.agent is Running
    &&& f.agent->rest is Reachable
    &&& f.agent->rest->folders@.len() > 0
    &&& forall|i: int|
        0 <= i < f.agent->rest->folders@.len() ==> !lacks_history(
            #[trigger] f.agent->rest->folders@[i],
        )
    &&& exists|i: int|
        0 <= i < f.agent->rest->peers@.len() && (#[trigger] f.agent->rest->peers@[i]).connected
    &&& forall|i: int|
        0 <= i < f.agent->rest->peers@.len() ==> (#[trigger] f.agent->rest->peers@[i]).state
            != ShareState::NotSharingBack && f.agent->rest->peers@[i].state
            != ShareState::Establishing
    &&& f.agent->rest->conflicts == 0
}

/// No check is a warning or a failure.
pub open spec fn all_okay(cs: Seq<CheckView>) -> bool {
    !has_level(cs, Level::Warn) && !has_level(cs, Level::Fail)
}

proof fn lemma_levels_of(cs: Seq<CheckView>)
    ensures
        doctor::worst_of(doctor::levels(cs)) == Level::Fail <==> has_level(cs, Level::Fail),
        doctor::worst_of(doctor::levels(cs)) == Level::Okay <==> all_okay(cs),
{
    let ls = doctor::levels(cs);
    doctor::worst_is_the_most_severe(ls);
    assert forall|l: Level| #[trigger] ls.contains(l) <==> has_level(cs, l) by {
        if ls.contains(l) {
            let i = choose|i: int| 0 <= i < ls.len() && ls[i] == l;
            assert(cs[i].level == l);
        }
        if has_level(cs, l) {
            let i = choose|i: int| 0 <= i < cs.len() && (#[trigger] cs[i]).level == l;
            assert(ls[i] == l);
        }
    }
    if all_okay(cs) {
        assert forall|i: int| 0 <= i < ls.len() implies #[trigger] ls[i] == Level::Okay by {
            assert(cs[i].level == ls[i]);
            assert(ls.contains(ls[i]));
        }
    }
    if doctor::worst_of(ls) == Level::Okay {
        assert forall|i: int| 0 <= i < cs.len() implies (#[trigger] cs[i]).level == Level::Okay by {
            assert(ls[i] == cs[i].level);
        }
    }
}

proof fn lemma_folder_levels(fs: Seq<FolderFacts>)
    ensures
        has_level(doctor::folder_checks(fs), Level::Fail) <==> exists|i: int|
            0 <= i < fs.len() && lacks_directory(#[trigger] fs[i]),
        all_okay(doctor::folder_checks(fs)) <==> fs.len() > 0 && (forall|i: int|
            0 <= i < fs.len() ==> !lacks_directory(#[trigger] fs[i])) && (forall|i: int|
            0 <= i < fs.len() ==> !lacks_history(#[trigger] fs[i])),
{
    a_missing_directory_fails_the_check(fs);
    let cs = doctor::folder_checks(fs);
    if fs.len() == 0 {
        assert(cs[0].level == Level::Warn);
    } else if forall|i: int| 0 <= i < fs.len() ==> !lacks_directory(#[trigger] fs[i]) {
        folders_without_history_are_warned_of(fs);
        if exists|i: int| 0 <= i < fs.len() && lacks_history(#[trigger] fs[i]) {
            assert(cs[1].level == Level::Warn);
        } else {
            assert(!has_level(cs, Level::Warn));
        }
    }
}

proof fn lemma_peer_levels(peers: Seq<PeerView>, clean: spec_fn(Seq<char>) -> Seq<char>)
    ensures
        !has_level(doctor::peer_checks(peers, clean), Level::Fail),
        all_okay(doctor::peer_checks(peers, clean)) <==> (exists|i: int|
            0 <= i < peers.len() && (#[trigger] peers[i]).connected) && (forall|i: int|
            0 <= i < peers.len() ==> (#[trigger] peers[i]).state != ShareState::NotSharingBack
                && peers[i].state != ShareState::Establishing),
{
    let cs = doctor::peer_checks(peers, clean);
    connected_peers_are_counted(peers, clean);
    if exists|i: int| 0 <= i < peers.len() && (#[trigger] peers[i]).connected {
        peers_that_do_not_share_are_named(peers, clean);
        if cs[1].level == Level::Warn {
            assert(has_level(cs, Level::Warn));
        } else {
            assert(!has_level(cs, Level::Warn));
        }
    } else {
        assert(cs[0].level == Level::Warn);
    }
}

proof fn lemma_rest_levels(
    version: Seq<char>,
    folders: Seq<FolderFacts>,
    peers: Seq<PeerView>,
    conflicts: nat,
    cs: Seq<CheckView>,
    clean: spec_fn(Seq<char>) -> Seq<char>,
)
    requires
        cs == seq![
            doctor::check(Level::Okay, "syncthing REST"@, "reachable (v"@ + version + ")"@),
        ] + doctor::folder_checks(folders) + doctor::peer_checks(peers, clean)
            + doctor::conflict_checks(conflicts),
    ensures
        has_level(cs, Level::Fail) <==> has_level(doctor::folder_checks(folders), Level::Fail),
        all_okay(cs) <==> all_okay(doctor::folder_checks(folders)) && all_okay(
            doctor::peer_checks(peers, clean),
        ) && conflicts == 0,
{
    let first = seq![
        doctor::check(Level::Okay, "syncthing REST"@, "reachable (v"@ + version + ")"@),
    ];
    let two = first + doctor::folder_checks(folders);
    let three = two + doctor::peer_checks(peers, clean);
    lemma_peer_levels(peers, clean);
    assert(!has_level(first, Level::Warn) && !has_level(first, Level::Fail));
    lemma_has_level_add(first, doctor::folder_checks(folders), Level::Warn);
    lemma_has_level_add(first, doctor::folder_checks(folders), Level::Fail);
    lemma_has_level_add(two, doctor::peer_checks(peers, clean), Level::Warn);
    lemma_has_level_add(two, doctor::peer_checks(peers, clean), Level::Fail);
    lemma_has_level_add(three, doctor::conflict_checks(conflicts), Level::Warn);
    lemma_has_level_add(three, doctor::conflict_checks(conflicts), Level::Fail);
    if conflicts > 0 {
        assert(doctor::conflict_checks(conflicts)[0].level == Level::Warn);
    }
}

proof fn lemma_agent_levels(a: AgentFacts, clean: spec_fn(Seq<char>) -> Seq<char>)
    ensures
        has_level(doctor::agent_checks(a, clean), Level::Fail) <==> {
            ||| a is Unknown
            ||| a is Running && a->rest is Unreachable
            ||| a is Running && a->rest is Reachable && exists|i: int|
                0 <= i < a->rest->folders@.len() && lacks_directory(
                    #[trigger] a->rest->folders@[i],
                )
        },
        all_okay(doctor::agent_checks(a, clean)) <==> {
            &&& a is Running
            &&& a->rest is Reachable
            &&& all_okay(doctor::folder_checks(a->rest->folders@))
            &&& all_okay(doctor::peer_checks(agent::peer_views(a->rest->peers@), clean))
            &&& a->rest->conflicts == 0
        },
{
    let cs = doctor::agent_checks(a, clean);
    match a {
        AgentFacts::Unknown => {
            assert(cs[0].level == Level::Fail);
        },
        AgentFacts::Stopped => {
            assert(cs[0].level == Level::Warn);
        },
        AgentFacts::Running { gui_address, rest } => {
            let first = seq![
                doctor::check(Level::Okay, "agent"@, "running ("@ + gui_address@ + ")"@),
            ];
            let inner = doctor::rest_checks(rest, clean);
            assert(!has_level(first, Level::Warn) && !has_level(first, Level::Fail));
            lemma_has_level_add(first, inner, Level::Warn);
            lemma_has_level_add(first, inner, Level::Fail);
            match rest {
                RestFacts::Unreachable { why } => {
                    assert(inner[0].level == Level::Fail);
                },
                RestFacts::Reachable { version, folders, peers, conflicts } => {
                    lemma_rest_levels(
                        version@,
                        folders@,
                        agent::peer_views(peers@),
                        conflicts as nat,
                        inner,
                        clean,
                    );
                    lemma_folder_levels(folders@);
                },
            }
        },
    }
}

/// The health check fails exactly where something is broken.
pub proof fn the_check_fails_where_something_is_broken(
    f: Facts,
    clean: spec_fn(Seq<char>) -> Seq<char>,
)
    ensures
        has_level(doctor::all_checks(f, clean), Level::Fail) <==> is_broken(f),
        doctor::worst_of(doctor::levels(doctor::all_checks(f, clean))) == Level::Fail
            <==> is_broken(f),
{
    let first = seq![
        doctor::binary_check(f.binary_present, f.pinned_version@),
        doctor::config_check(f.config_file),
        doctor::secrets_check(f.secrets_mode),
    ];
    let inner = doctor::agent_checks(f.agent, clean);
    lemma_has_level_add(first, inner, Level::Fail);
    lemma_agent_levels(f.agent, clean);
    lemma_levels_of(doctor::all_checks(f, clean));
    match f.secrets_mode {
        Some(mode) => a_mode_is_in_order_without_group_and_other_bits(mode),
        None => {},
    }
    assert(first[0].level == (if f.binary_present {
        Level::Okay
    } else {
        Level::Fail
    }));
    assert(first[1].level != Level::Fail);
    assert(first[2].level == Level::Fail <==> (f.secrets_mode matches Some(mode) && mode & 0o077
        != 0));
}

/// The health check finds no fault and nothing to warn of exactly where all is well.
pub proof fn the_check_is_clean_where_all_is_well(
    f: Facts,
    clean: spec_fn(Seq<char>) -> Seq<char>,
)
    ensures
        doctor::worst_of(doctor::levels(doctor::all_checks(f, clean))) == Level::Okay
            <==> is_well(f),
{
    let first = seq![
        doctor::binary_check(f.binary_present, f.pinned_version@),
        doctor::config_check(f.config_file),
        doctor::secrets_check(f.secrets_mode),
    ];
    let inner = doctor::agent_checks(f.agent, clean);
    lemma_has_level_add(first, inner, Level::Fail);
    lemma_has_level_add(first, inner, Level::Warn);
    lemma_agent_levels(f.agent, clean);
    lemma_levels_of(doctor::all_checks(f, clean));
    the_check_fails_where_something_is_broken(f, clean);
    match f.secrets_mode {
        Some(mode) => a_mode_is_in_order_without_group_and_other_bits(mode),
        None => {},
    }
    assert(first[1].level == (if f.config_file is Some {
        Level::Okay
    } else {
        Level::Warn
    }));
    assert(first[2].level == Level::Warn <==> f.secrets_mode is None);
    assert(first[0].level != Level::Warn);
    if f.agent is Running && f.agent->rest is Reachable {
        let fs = f.agent->rest->folders@;
        let ps = f.agent->rest->peers@;
        let views = agent::peer_views(ps);
        lemma_folder_levels(fs);
        lemma_peer_levels(views, clean);
        assert forall|i: int| 0 <= i < ps.len() implies (#[trigger] views[i]).connected
            == ps[i].connected && views[i].state == ps[i].state by {}
        if exists|i: int| 0 <= i < ps.len() && (#[trigger] ps[i]).connected {
            let i = choose|i: int| 0 <= i < ps.len() && (#[trigger] ps[i]).connected;
            assert(views[i].connected);
        }
        if exists|i: int| 0 <= i < views.len() && (#[trigger] views[i]).connected {
            let i = choose|i: int| 0 <= i < views.len() && (#[trigger] views[i]).connected;
            assert(ps[i].connected);
        }
        if forall|i: int|
            0 <= i < views.len() ==> (#[trigger] views[i]).state != ShareState::NotSharingBack
                && views[i].state != ShareState::Establishing {
            assert forall|i: int| 0 <= i < ps.len() implies (#[trigger] ps[i]).state
                != ShareState::NotSharingBack && ps[i].state != ShareState::Establishing by {
                assert(views[i].state == ps[i].state);
            }
        }
    }
}

/// The checks come in their order: the binary, the configuration, the secrets, the agent,
/// its endpoint, and then all those of the folders, of the peers and of the conflict files.
pub proof fn the_checks_come_in_their_order(f: Facts, clean: spec_fn(Seq<char>) -> Seq<char>)
    ensures
        ({
            let all = doctor::all_checks(f, clean);
            &&& all[0].name == "syncthing binary"@
            &&& all[1].name == "config"@
            &&& all[2].name == (if f.secrets_mode is Some {
                "secrets perms"@
            } else {
                "secrets"@
            })
            &&& all[3].name == (if f.agent is Unknown {
                "state"@
            } else {
                "agent"@
            })
            &&& !(f.agent is Running) ==> all.len() == 4
            &&& f.agent is Running ==> all[4].name == "syncthing REST"@
            &&& f.agent is Running && f.agent->rest is Unreachable ==> all.len() == 5
            &&& f.agent is Running && f.agent->rest is Reachable ==> {
                let folders = doctor::folder_checks(f.agent->rest->folders@);
                let peers = doctor::peer_checks(
                    agent::peer_views(f.agent->rest->peers@),
                    clean,
                );
                let conflicts = doctor::conflict_checks(f.agent->rest->conflicts as nat);
                let a = 5 + folders.len() as int;
                let b = a + peers.len();
                &&& all.len() == b + conflicts.len()
                &&& all.subrange(5, a) == folders
                &&& all.subrange(a, b) == peers
                &&& all.subrange(b, all.len() as int) == conflicts
            }
        }),
{
    let all = doctor::all_checks(f, clean);
    let three = seq![
        doctor::binary_check(f.binary_present, f.pinned_version@),
        doctor::config_check(f.config_file),
        doctor::secrets_check(f.secrets_mode),
    ];
    assert(all == three + doctor::agent_checks(f.agent, clean));
    assert(all[0] == three[0] && all[1] == three[1] && all[2] == three[2]);
    assert(all[3] == doctor::agent_checks(f.agent, clean)[0]);
    if f.agent is Running {
        assert(all[4] == doctor::rest_checks(f.agent->rest, clean)[0]);
        if f.agent->rest is Reachable {
            let folders = doctor::folder_checks(f.agent->rest->folders@);
            let peers = doctor::peer_checks(agent::peer_views(f.agent->rest->peers@), clean);
            let conflicts = doctor::conflict_checks(f.agent->rest->conflicts as nat);
            let a = 5 + folders.len() as int;
            let b = a + peers.len();
            assert(all.subrange(5, a) =~= folders);
            assert(all.subrange(a, b) =~= peers);
            assert(all.subrange(b, all.len() as int) =~= conflicts);
        }
    }
}

/// What the peers are said to be is what is known of each, in its place.
pub proof fn the_peers_are_those_known(peers: Seq<agent::PeerSync>, i: int)
    requires
        0 <= i < peers.len(),
    ensures
        agent::peer_views(peers).len() == peers.len(),
        agent::peer_views(peers)[i] == peers[i]@,
{
}

/// The checks of the binary, the configuration, the secrets, the agent and its endpoint tell
/// what was found.
pub proof fn the_first_checks_tell_what_was_found(f: Facts, clean: spec_fn(Seq<char>) -> Seq<char>)
    ensures
        ({
            let all = doctor::all_checks(f, clean);
            &&& all[0].level == (if f.binary_present {
                Level::Okay
            } else {
                Level::Fail
            })
            &&& f.binary_present ==> all[0].detail == "present (pinned v"@ + f.pinned_version@
                + ")"@
            &&& !f.binary_present ==> all[0].detail == "not downloaded yet"@
            &&& f.config_file matches Some(path) ==> all[1].level == Level::Okay && all[1].detail
                == path@
            &&& f.config_file is None ==> all[1].level == Level::Warn && all[1].detail
                == "no config.toml yet"@
            &&& f.secrets_mode matches Some(mode) ==> all[2].detail == (if mode & 0o077 == 0 {
                "0600"@
            } else {
                text::octal4((mode & 0o777) as nat) + " (should be 0600)"@
            })
            &&& f.secrets_mode is None ==> all[2].detail
                == "not created yet (agent never started)"@
            &&& f.agent is Unknown ==> all[3].level == Level::Fail && all[3].detail
                == "could not load agent state"@
            &&& f.agent is Stopped ==> all[3].level == Level::Warn && all[3].detail == "stopped"@
            &&& f.agent is Running ==> {
                &&& all[3].level == Level::Okay
                &&& all[3].detail == "running ("@ + f.agent->gui_address@ + ")"@
                &&& f.agent->rest is Unreachable ==> all[4].level == Level::Fail && all[4].detail
                    == "unreachable: "@ + f.agent->rest->why@
                &&& f.agent->rest is Reachable ==> all[4].level == Level::Okay && all[4].detail
                    == "reachable (v"@ + f.agent->rest->version@ + ")"@
            }
        }),
{
    let all = doctor::all_checks(f, clean);
    let three = seq![
        doctor::binary_check(f.binary_present, f.pinned_version@),
        doctor::config_check(f.config_file),
        doctor::secrets_check(f.secrets_mode),
    ];
    assert(all == three + doctor::agent_checks(f.agent, clean));
    assert(all[0] == three[0] && all[1] == three[1] && all[2] == three[2]);
    assert(all[3] == doctor::agent_checks(f.agent, clean)[0]);
    match f.secrets_mode {
        Some(mode) => {
            assert((mode % 0o1000) % 0o100 == 0 <==> mode & 0o077 == 0) by (bit_vector);
            assert(mode % 0o1000 == mode & 0o777) by (bit_vector);
        },
        None => {},
    }
    if f.agent is Running {
        assert(all[4] == doctor::rest_checks(f.agent->rest, clean)[0]);
    }
}

/// A check that went well has no hint. One that did not says what to do: to start the agent,
/// to register a folder, to repair it, to pair, to share back, or to merge.
pub proof fn a_check_that_went_badly_says_what_to_do(
    present: bool,
    version: Seq<char>,
    config_file: Option<String>,
    mode: Option<u32>,
    fs: Seq<FolderFacts>,
    peers: Seq<PeerView>,
    count: nat,
    clean: spec_fn(Seq<char>) -> Seq<char>,
)
    ensures
        doctor::binary_check(present, version).hint == (if present {
            None
        } else {
            Some("run `byteferret start` — it downloads the pinned Syncthing on first use"@)
        }),
        doctor::config_check(config_file).hint == (if config_file is Some {
            None
        } else {
            Some("run `byteferret init <path>` to register a folder"@)
        }),
        doctor::secrets_check(mode).hint == (if doctor::secrets_check(mode).level == Level::Fail {
            Some("run `byteferret doctor --fix` to correct it"@)
        } else {
            None
        }),
        doctor::agent_checks(AgentFacts::Stopped, clean)[0].hint == Some(
            "run `byteferret start` (or `byteferret doctor --fix`)"@,
        ),
        doctor::folder_checks(fs)[0].hint == (match doctor::folder_checks(fs)[0].level {
            Level::Okay => None,
            Level::Warn => Some("run `byteferret init <path>` to sync a directory"@),
            Level::Fail => Some(
                "re-create the directory or run `byteferret init <path> --existing`"@,
            ),
        }),
        doctor::folder_checks(fs).len() == 2 ==> doctor::folder_checks(fs)[1].hint == (
        if doctor::folder_checks(fs)[1].level == Level::Okay {
            None
        } else {
            Some("run `byteferret doctor --fix` to enable staggered versioning"@)
        }),
        peers.len() == 0 ==> doctor::peer_checks(peers, clean)[0].hint == Some(
            "get this device's id with `byteferret status`, then `byteferret pair --with <id>` on the other machine"@,
        ),
        peers.len() > 0 ==> doctor::peer_checks(peers, clean)[0].hint is None,
        doctor::share_check(peers, clean).hint == (if exists|i: int|
            0 <= i < peers.len() && (#[trigger] peers[i]).state == ShareState::NotSharingBack {
            Some(
                "on that machine run `byteferret pair --with <this-device-id> --folder <name>` to share the folder back"@,
            )
        } else if exists|i: int|
            0 <= i < peers.len() && (#[trigger] peers[i]).state == ShareState::Establishing {
            Some(
                "give it a moment and re-check `byteferret status`; if it persists, run `byteferret pair --with <this-device-id> --folder <name>` on that machine"@,
            )
        } else {
            None
        }),
        count > 0 ==> doctor::conflict_checks(count)[0].hint == Some(
            "open both copies, merge, then delete the *.sync-conflict-* file"@,
        ),
{
    let stalled = |p: PeerView| p.state == ShareState::NotSharingBack;
    let establishing = |p: PeerView| p.state == ShareState::Establishing;
    lemma_filter_is_empty(peers, stalled);
    lemma_filter_is_empty(peers, establishing);
    assert(doctor::peers_in(peers, ShareState::NotSharingBack) == peers.filter(stalled));
    assert(doctor::peers_in(peers, ShareState::Establishing) == peers.filter(establishing));
    if exists|i: int|
        0 <= i < peers.len() && (#[trigger] peers[i]).state == ShareState::NotSharingBack {
        let i = choose|i: int|
            0 <= i < peers.len() && (#[trigger] peers[i]).state == ShareState::NotSharingBack;
        assert(stalled(peers[i]));
    } else {
        assert forall|i: int| 0 <= i < peers.len() implies !stalled(#[trigger] peers[i]) by {}
        if exists|i: int|
            0 <= i < peers.len() && (#[trigger] peers[i]).state == ShareState::Establishing {
            let i = choose|i: int|
                0 <= i < peers.len() && (#[trigger] peers[i]).state == ShareState::Establishing;
            assert(establishing(peers[i]));
        } else {
            assert forall|i: int| 0 <= i < peers.len() implies !establishing(#[trigger] peers[i]) by
                {}
        }
    }
}

/// The word for the worst of the checks: FAIL where one failed, warn where none did and one
/// warns, and ok where all went well.
pub open spec fn worst_word(cs: Seq<CheckView>) -> Seq<char> {
    if has_level(cs, Level::Fail) {
        "FAIL"@
    } else if has_level(cs, Level::Warn) {
        "warn"@
    } else {
        "ok"@
    }
}

/// The document has every repair and every check, in their places, and the worst of the
/// checks; it is not ok exactly where a check failed.
pub proof fn the_document_has_every_check(fix: bool, fixes: Seq<Seq<char>>, cs: Seq<CheckView>)
    ensures
        ({
            let doc = doctor::doctor_output(fix, fixes, cs).doc;
            let applied = documents::array_at(doc, "fixesApplied"@);
            let entries = documents::array_at(doc, "checks"@);
            &&& documents::has(doc, "ok"@, Json::Bool(!has_level(cs, Level::Fail)))
            &&& documents::has(doc, "overall"@, Json::Text(worst_word(cs)))
            &&& documents::has_array(doc, "fixesApplied"@)
            &&& documents::has_array(doc, "checks"@)
            &&& applied.len() == fixes.len()
            &&& forall|i: int|
                0 <= i < applied.len() ==> #[trigger] applied[i] == Json::Text(fixes[i])
            &&& entries.len() == cs.len()
            &&& forall|i: int|
                0 <= i < entries.len() ==> {
                    &&& documents::has(#[trigger] entries[i], "name"@, Json::Text(cs[i].name))
                    &&& documents::has(
                        entries[i],
                        "level"@,
                        Json::Text(
                            match cs[i].level {
                                Level::Okay => "ok"@,
                                Level::Warn => "warn"@,
                                Level::Fail => "FAIL"@,
                            },
                        ),
                    )
                    &&& documents::has(entries[i], "detail"@, Json::Text(cs[i].detail))
                    &&& documents::has(
                        entries[i],
                        "hint"@,
                        match cs[i].hint {
                            Some(h) => Json::Text(h),
                            None => Json::Null,
                        },
                    )
                }
        }),
{
    reveal_strlit("ok");
    reveal_strlit("overall");
    reveal_strlit("fixesApplied");
    reveal_strlit("checks");
    reveal_strlit("name");
    reveal_strlit("level");
    reveal_strlit("detail");
    reveal_strlit("hint");
    assert("ok"@.len() == 2 && "overall"@.len() == 7 && "fixesApplied"@.len() == 12);
    assert("checks"@.len() == 6 && "level"@.len() == 5 && "detail"@.len() == 6);
    assert("name"@.len() == 4 && "hint"@.len() == 4 && "name"@[0] == 'n' && "hint"@[0] == 'h');
    lemma_levels_of(cs);
    doctor::worst_is_the_most_severe(doctor::levels(cs));
    let doc = doctor::doctor_output(fix, fixes, cs).doc;
    let entries = documents::array_at(doc, "checks"@);
    assert(entries == cs.map_values(|c: CheckView| doctor::check_doc(c)));
    assert forall|i: int| 0 <= i < entries.len() implies #[trigger] entries[i]
        == doctor::check_doc(cs[i]) by {}
}

/// How many lines there are before the checks: none without `--fix`, one where nothing was
/// repaired, and else a headline, one line for each repair and an empty one.
pub open spec fn checks_at(fix: bool, fixes: Seq<Seq<char>>) -> int {
    if !fix {
        0
    } else if fixes.len() == 0 {
        1
    } else {
        fixes.len() as int + 2
    }
}

/// A check that did not go well and has a hint has a second line for it.
pub open spec fn shows_hint(c: CheckView) -> bool {
    c.hint is Some && c.level != Level::Okay
}

/// How many lines the first `n` checks have.
pub open spec fn lines_among(cs: Seq<CheckView>, n: int) -> int
    decreases n,
{
    if n <= 0 {
        0
    } else {
        lines_among(cs, n - 1) + (if shows_hint(cs[n - 1]) {
            2int
        } else {
            1int
        })
    }
}

proof fn lemma_among_of_front(cs: Seq<CheckView>, n: int)
    requires
        0 <= n < cs.len(),
    ensures
        lines_among(cs.drop_last(), n) == lines_among(cs, n),
    decreases n,
{
    if n > 0 {
        lemma_among_of_front(cs, n - 1);
    }
}

proof fn lemma_checks_height(cs: Seq<CheckView>)
    ensures
        doctor::checks_lines(cs).len() == lines_among(cs, cs.len() as int),
    decreases cs.len(),
{
    if cs.len() > 0 {
        lemma_checks_height(cs.drop_last());
        lemma_among_of_front(cs, cs.len() - 1);
    }
}

proof fn lemma_check_lines_at(cs: Seq<CheckView>, i: int)
    requires
        0 <= i < cs.len(),
    ensures
        0 <= lines_among(cs, i),
        lines_among(cs, i) + doctor::check_lines(cs[i]).len() <= doctor::checks_lines(cs).len(),
        forall|k: int|
            0 <= k < doctor::check_lines(cs[i]).len() ==> doctor::checks_lines(cs)[lines_among(
                cs,
                i,
            ) + k] == #[trigger] doctor::check_lines(cs[i])[k],
    decreases cs.len(),
{
    let front = cs.drop_last();
    let n = cs.len() - 1;
    lemma_checks_height(cs);
    lemma_checks_height(front);
    lemma_among_of_front(cs, n);
    if i < n {
        lemma_among_of_front(cs, i);
        lemma_check_lines_at(front, i);
        assert(front[i] == cs[i]);
        assert forall|k: int| 0 <= k < doctor::check_lines(cs[i]).len() implies doctor::checks_lines(
            cs,
        )[lines_among(cs, i) + k] == #[trigger] doctor::check_lines(cs[i])[k] by {
            assert(doctor::checks_lines(front)[lines_among(front, i) + k] == doctor::check_lines(
                front[i],
            )[k]);
        }
    }
}

/// With `--fix` the lines begin with every repair that was made; without it with none. They
/// end with the worst of the checks in words.
pub proof fn the_lines_have_every_repair(fix: bool, fixes: Seq<Seq<char>>, cs: Seq<CheckView>)
    ensures
        ({
            let lines = doctor::doctor_output(fix, fixes, cs).lines;
            let start = checks_at(fix, fixes);
            let end = start + lines_among(cs, cs.len() as int);
            &&& lines.len() == end + 2
            &&& fix && fixes.len() == 0 ==> lines[0] == "--fix: nothing to repair."@
            &&& fix && fixes.len() > 0 ==> lines[0] == "--fix applied:"@ && lines[start - 1] == ""@
            &&& fix ==> forall|i: int|
                0 <= i < fixes.len() ==> lines[1 + i] == "  - "@ + #[trigger] fixes[i]
            &&& lines[end] == ""@
            &&& lines[end + 1] == "overall: "@ + (if has_level(cs, Level::Fail) {
                "problems found"@
            } else if has_level(cs, Level::Warn) {
                "healthy with warnings"@
            } else {
                "healthy"@
            })
        }),
{
    lemma_checks_height(cs);
    lemma_levels_of(cs);
    doctor::worst_is_the_most_severe(doctor::levels(cs));
    let lines = doctor::doctor_output(fix, fixes, cs).lines;
    let start = checks_at(fix, fixes);
    let end = start + lines_among(cs, cs.len() as int);
    let top = doctor::fix_lines(fix, fixes);
    let bottom = seq![""@, doctor::headline(doctor::worst_of(doctor::levels(cs)))];
    assert(top.len() == start);
    assert(lines == top + doctor::checks_lines(cs) + bottom);
    assert(lines[end] == bottom[0] && lines[end + 1] == bottom[1]);
    if fix {
        assert(lines[0] == top[0]);
        if fixes.len() > 0 {
            assert(lines[start - 1] == top[start - 1]);
            assert forall|i: int| 0 <= i < fixes.len() implies lines[1 + i] == "  - "@
                + #[trigger] fixes[i] by {
                assert(top[1 + i] == fixes.map_values(|f: Seq<char>| "  - "@ + f)[i]);
                assert(lines[1 + i] == top[1 + i]);
            }
        }
    }
}

/// Every check has its line, with the mark and the word for its level, its name and what was
/// found, and below it its hint where it did not go well.
pub proof fn the_lines_have_every_check(
    fix: bool,
    fixes: Seq<Seq<char>>,
    cs: Seq<CheckView>,
    i: int,
)
    requires
        0 <= i < cs.len(),
    ensures
        ({
            let lines = doctor::doctor_output(fix, fixes, cs).lines;
            let place = checks_at(fix, fixes) + lines_among(cs, i);
            let (mark, word) = match cs[i].level {
                Level::Okay => ('✓', "ok"@),
                Level::Warn => ('!', "warn"@),
                Level::Fail => ('✗', "FAIL"@),
            };
            &&& lines[place] == "  "@.push(mark) + " "@ + text::padded(cs[i].name, 16) + " "@ + word
                + " — "@ + cs[i].detail
            &&& shows_hint(cs[i]) ==> lines[place + 1] == "      ↳ "@ + cs[i].hint->0
        }),
{
    lemma_checks_height(cs);
    lemma_check_lines_at(cs, i);
    let lines = doctor::doctor_output(fix, fixes, cs).lines;
    let start = checks_at(fix, fixes);
    let place = start + lines_among(cs, i);
    let top = doctor::fix_lines(fix, fixes);
    let middle = doctor::checks_lines(cs);
    let own = doctor::check_lines(cs[i]);
    assert(top.len() == start);
    assert(middle[lines_among(cs, i) + 0] == own[0]);
    assert(lines[place] == middle[lines_among(cs, i)]);
    if shows_hint(cs[i]) {
        assert(middle[lines_among(cs, i) + 1] == own[1]);
        assert(lines[place + 1] == middle[lines_among(cs, i) + 1]);
    }
}

/// What is said of a list of checks is what each of them says, in its place.
pub proof fn the_checks_are_those_made(cs: Seq<Check>, i: int)
    requires
        0 <= i < cs.len(),
    ensures
        doctor::check_views(cs).len() == cs.len(),
        doctor::check_views(cs)[i].level == cs[i].level,
        doctor::check_views(cs)[i].name == cs[i].name@,
        doctor::check_views(cs)[i].detail == cs[i].detail@,
        cs[i].hint matches Some(h) ==> doctor::check_views(cs)[i].hint == Some(h@),
        cs[i].hint is None ==> doctor::check_views(cs)[i].hint is None,
{
}

} // verus!
