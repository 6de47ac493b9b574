//! What reaches the terminal: nothing that a peer chose does, but for what the
//! sanitizer makes of it.

use vstd::prelude::*;

use crate::agent;
use crate::agent::PeerView;
use crate::commands::doctor;
use crate::commands::doctor::CheckView;
use crate::commands::history;
use crate::commands::shares;
use crate::commands::shares::{FolderView, ShareView};
use crate::commands::size;
use crate::commands::status;
use crate::commands::status::{OfferView, PeerFacts, Running};
use crate::commands::versions;
use crate::commands::versions::{FileView, VersionView};
use crate::syncthing::rest::PendingDevice;
use crate::text;

verus! {

/// The character is no control character.
pub open spec fn printable(c: char) -> bool {
    0x20 <= c as int && !(0x7f <= c as int <= 0x9f)
}

/// No character of the text is a control character.
pub open spec fn plain(s: Seq<char>) -> bool {
    forall|i: int| 0 <= i < s.len() ==> printable(#[trigger] s[i])
}

/// No line has a control character.
pub open spec fn all_plain(lines: Seq<Seq<char>>) -> bool {
    forall|i: int| 0 <= i < lines.len() ==> plain(#[trigger] lines[i])
}

/// What the sanitizer gives has no control character, whatever it is given.
pub open spec fn strips(clean: spec_fn(Seq<char>) -> Seq<char>) -> bool {
    forall|s: Seq<char>| plain(#[trigger] clean(s))
}

broadcast proof fn plain_add(a: Seq<char>, b: Seq<char>)
    requires
        plain(a),
        plain(b),
    ensures
        #[trigger] plain(a + b),
{
}

broadcast proof fn all_plain_add(a: Seq<Seq<char>>, b: Seq<Seq<char>>)
    requires
        all_plain(a),
        all_plain(b),
    ensures
        #[trigger] all_plain(a + b),
{
}

broadcast proof fn all_plain_push(a: Seq<Seq<char>>, b: Seq<char>)
    requires
        all_plain(a),
        plain(b),
    ensures
        #[trigger] all_plain(a.push(b)),
{
}

broadcast proof fn decimal_is_plain(n: nat)
    ensures
        #[trigger] plain(text::decimal(n)),
    decreases n,
{
    if n >= 10 {
        decimal_is_plain(n / 10);
    }
}

broadcast group group_plain {
    plain_add,
    all_plain_add,
    all_plain_push,
    decimal_is_plain,
}

proof fn joined_is_plain(parts: Seq<Seq<char>>)
    requires
        all_plain(parts),
    ensures
        plain(text::joined(parts, ", "@)),
    decreases parts.len(),
{
    broadcast use group_plain;

    reveal_strlit(", ");
    if parts.len() > 1 {
        joined_is_plain(parts.drop_last());
        assert(plain(parts.last()));
    }
}

proof fn shown_id_is_plain(id: Seq<char>, verbose: bool)
    requires
        plain(id),
    ensures
        plain(status::shown_id(id, verbose)),
{
    broadcast use group_plain;

    reveal_strlit("…");
    assert(plain(status::first_segment(id)));
}

proof fn folder_lines_are_plain(fs: Seq<FolderView>, clean: spec_fn(Seq<char>) -> Seq<char>)
    requires
        strips(clean),
        forall|i: int| 0 <= i < fs.len() ==> plain((#[trigger] fs[i]).state),
    ensures
        all_plain(status::folder_lines(fs, clean)),
{
    broadcast use group_plain;

    reveal_strlit("  - ");
    reveal_strlit("  ");
    reveal_strlit("  — ");
    reveal_strlit("unknown");
    reveal_strlit(" (");
    reveal_strlit(" bytes to sync)");
    reveal_strlit(", shared with ");
    reveal_strlit(" peer(s)");
    reveal_strlit("folders:");
    reveal_strlit("folders:    none — run `byteferret init <path>`");
    let shown = fs.map_values(|f: FolderView| status::folder_line(f, clean));
    assert forall|i: int| 0 <= i < shown.len() implies plain(#[trigger] shown[i]) by {
        let f = fs[i];
        assert(plain(f.state));
        assert(plain(status::folder_line(f, clean)));
    }
    assert(all_plain(shown));
}

proof fn peer_line_is_plain(
    p: PeerView,
    name: Seq<char>,
    address: Seq<char>,
    verbose: bool,
    clean: spec_fn(Seq<char>) -> Seq<char>,
)
    requires
        strips(clean),
        plain(p.id),
    ensures
        plain(status::peer_line(p, name, address, verbose, clean)),
{
    broadcast use group_plain;

    reveal_strlit("  - ");
    reveal_strlit(" (");
    reveal_strlit("): ");
    reveal_strlit("connected");
    reveal_strlit("disconnected");
    reveal_strlit("  ");
    shown_id_is_plain(p.id, verbose);
}

proof fn share_lines_are_plain(ss: Seq<ShareView>, clean: spec_fn(Seq<char>) -> Seq<char>)
    requires
        strips(clean),
        forall|i: int| 0 <= i < ss.len() ==> plain((#[trigger] ss[i]).answer.percent),
    ensures
        all_plain(status::share_lines(ss, clean)),
{
    broadcast use group_plain;

    reveal_strlit("      ");
    reveal_strlit(" (");
    reveal_strlit("%)");
    reveal_strlit(" (establishing)");
    reveal_strlit(" (peer not sharing back)");
    reveal_strlit("      no folders shared");
    let shown = ss.map_values(|s: ShareView| status::share_line(s, clean));
    assert forall|i: int| 0 <= i < shown.len() implies plain(#[trigger] shown[i]) by {
        assert(plain(ss[i].answer.percent));
        assert(plain(status::share_line(ss[i], clean)));
    }
    assert(all_plain(shown));
}

/// The percentages among the answers of a peer have no control characters.
pub open spec fn plain_answers(p: PeerFacts) -> bool {
    forall|i: int|
        0 <= i < p.answers@.len() ==> (#[trigger] p.answers@[i] matches Some(a) ==> plain(
            a.percent@,
        ))
}

proof fn lines_of_peers_are_plain(
    f: Running,
    ps: Seq<PeerFacts>,
    verbose: bool,
    clean: spec_fn(Seq<char>) -> Seq<char>,
)
    requires
        strips(clean),
        forall|i: int| 0 <= i < ps.len() ==> plain((#[trigger] ps[i]).sync.id@),
        forall|i: int| 0 <= i < ps.len() ==> plain_answers(#[trigger] ps[i]),
    ensures
        all_plain(status::lines_of_peers(f, ps, verbose, clean)),
    decreases ps.len(),
{
    broadcast use group_plain;

    if ps.len() > 0 {
        let p = ps.last();
        assert(plain(p.sync.id@));
        assert(plain_answers(p));
        let rest = ps.drop_last();
        assert forall|i: int| 0 <= i < rest.len() implies plain(
            (#[trigger] rest[i]).sync.id@,
        ) by {
            assert(rest[i] == ps[i]);
        }
        assert forall|i: int| 0 <= i < rest.len() implies plain_answers(#[trigger] rest[i]) by {
            assert(rest[i] == ps[i]);
        }
        lines_of_peers_are_plain(f, rest, verbose, clean);
        peer_line_is_plain(
            p.sync@,
            status::peer_name(f.aliases@, p.sync@),
            status::address_of(f.connections@, p.sync.id@),
            verbose,
            clean,
        );
        let ss = status::peer_shares(f, p);
        reveal_strlit("0");
        assert forall|i: int| 0 <= i < ss.len() implies plain(
            (#[trigger] ss[i]).answer.percent,
        ) by {
            if i < p.answers@.len() {
                assert(shares::answer_views(p.answers@)[i] == match p.answers@[i] {
                    Some(a) => Some(a@),
                    None => None,
                });
            }
        }
        share_lines_are_plain(ss, clean);
        assert(all_plain(status::lines_of_peer(f, p, verbose, clean)));
    }
}

proof fn requests_lines_are_plain(
    ps: Seq<(String, PendingDevice)>,
    aliases: Seq<(Seq<char>, Seq<char>)>,
    clean: spec_fn(Seq<char>) -> Seq<char>,
)
    requires
        strips(clean),
        forall|i: int| 0 <= i < ps.len() ==> plain((#[trigger] ps[i]).0@),
    ensures
        all_plain(status::requests_lines(ps, aliases, clean)),
    decreases ps.len(),
{
    broadcast use group_plain;

    if ps.len() > 0 {
        let (id, info) = ps.last();
        assert(plain(ps.last().0@));
        let rest = ps.drop_last();
        assert forall|i: int| 0 <= i < rest.len() implies plain((#[trigger] rest[i]).0@) by {
            assert(rest[i] == ps[i]);
        }
        requests_lines_are_plain(rest, aliases, clean);
        reveal_strlit("  - ");
        reveal_strlit(" (");
        reveal_strlit(")");
        reveal_strlit("      accept:  byteferret pair ");
        reveal_strlit("      reject:  byteferret pair ");
        reveal_strlit(" --accept");
        reveal_strlit(" --reject");
        assert(plain(clean(status::reference(aliases, id@))));
        assert(plain(clean(info.name@)));
        assert(plain(status::named(" ("@, clean(info.name@), ")"@)));
        assert(all_plain(status::request_lines(id@, info.name@, aliases, clean)));
    }
}

proof fn offers_lines_are_plain(
    os: Seq<OfferView>,
    aliases: Seq<(Seq<char>, Seq<char>)>,
    clean: spec_fn(Seq<char>) -> Seq<char>,
)
    requires
        strips(clean),
    ensures
        all_plain(status::offers_lines(os, aliases, clean)),
    decreases os.len(),
{
    broadcast use group_plain;

    if os.len() > 0 {
        let o = os.last();
        offers_lines_are_plain(os.drop_last(), aliases, clean);
        reveal_strlit("  - ");
        reveal_strlit(" \"");
        reveal_strlit("\"");
        reveal_strlit(" — offered by ");
        reveal_strlit("      accept:  byteferret pair ");
        reveal_strlit(" --accept --folder ");
        assert(plain(clean(status::reference(aliases, o.device))));
        assert(plain(clean(o.name)));
        assert(plain(clean(o.label)));
        assert(plain(status::named(" \""@, clean(o.label), "\""@)));
        assert(all_plain(status::offer_lines(o, aliases, clean)));
    }
}

proof fn conflict_lines_are_plain(
    cs: Seq<Seq<char>>,
    clean: spec_fn(Seq<char>) -> Seq<char>,
)
    requires
        strips(clean),
    ensures
        all_plain(status::conflict_lines(cs, clean)),
{
    broadcast use group_plain;

    reveal_strlit("  - ");
    reveal_strlit("conflicts:  ");
    reveal_strlit(
        " sync-conflict file(s) — open both copies, merge, delete the conflict copy:",
    );
    let shown = cs.map_values(|c: Seq<char>| "  - "@ + clean(c));
    assert forall|i: int| 0 <= i < shown.len() implies plain(#[trigger] shown[i]) by {
        assert(plain(clean(cs[i])));
    }
    assert(all_plain(shown));
}

/// What `status` shows as it is has no control characters: the hostname, what the local
/// Syncthing tells of itself and of the states of its folders, device ids, and
/// percentages.
pub open spec fn plain_facts(host: Seq<char>, f: Running) -> bool {
    &&& plain(host)
    &&& plain(f.version@)
    &&& plain(f.gui_address@)
    &&& plain(f.device_id@)
    &&& forall|i: int| 0 <= i < f.folders@.len() ==> plain((#[trigger] f.folders@[i]).state@)
    &&& forall|i: int| 0 <= i < f.peers@.len() ==> plain((#[trigger] f.peers@[i]).sync.id@)
    &&& forall|i: int| 0 <= i < f.peers@.len() ==> plain_answers(#[trigger] f.peers@[i])
    &&& forall|i: int| 0 <= i < f.pending@.len() ==> plain((#[trigger] f.pending@[i]).0@)
}

/// No line of `status` has a control character, whatever peers chose for their names,
/// addresses, labels, folder names, paths and file names.
pub proof fn status_prints_no_control_characters(
    verbose: bool,
    host: Seq<char>,
    f: Running,
    clean: spec_fn(Seq<char>) -> Seq<char>,
)
    requires
        strips(clean),
        plain_facts(host, f),
    ensures
        all_plain(status::running_lines(verbose, host, f, clean)),
{
    broadcast use group_plain;

    reveal_strlit("agent:      running");
    reveal_strlit("syncthing:  ");
    reveal_strlit("  (");
    reveal_strlit(")");
    reveal_strlit("hostname:   ");
    reveal_strlit("device id:  ");
    reveal_strlit("mode:       p2p");
    reveal_strlit("peers:");
    reveal_strlit(
        "peers:      none — share the device id above and run `byteferret pair --with <id>` on the other machine",
    );
    reveal_strlit("");
    reveal_strlit(
        "Note: a connected peer is NOT sharing a folder back — run `byteferret doctor` for the fix.",
    );
    reveal_strlit("pending:    ");
    reveal_strlit(" pairing request(s):");
    reveal_strlit("offered folders:");
    let fs = shares::folder_views(f.folders@);
    assert forall|i: int| 0 <= i < fs.len() implies plain((#[trigger] fs[i]).state) by {
        assert(plain(f.folders@[i].state@));
    }
    folder_lines_are_plain(fs, clean);
    lines_of_peers_are_plain(f, f.peers@, verbose, clean);
    assert(all_plain(status::peer_lines(f, verbose, clean)));
    assert(all_plain(status::stall_lines(status::some_stalled(f.peers@))));
    requests_lines_are_plain(f.pending@, f.aliases@, clean);
    assert(all_plain(status::pending_lines(f.pending@, f.aliases@, clean)));
    offers_lines_are_plain(status::all_offers(f.offered@), f.aliases@, clean);
    assert(all_plain(status::offered_lines(f.offered@, f.aliases@, clean)));
    conflict_lines_are_plain(text::texts(f.conflicts@), clean);
    assert(all_plain(status::host_lines(host)));
}

/// No part of a check has a control character.
pub open spec fn plain_check(c: CheckView) -> bool {
    &&& plain(c.name)
    &&& plain(c.detail)
    &&& c.hint matches Some(h) ==> plain(h)
}

proof fn labels_are_plain(peers: Seq<PeerView>, clean: spec_fn(Seq<char>) -> Seq<char>)
    requires
        strips(clean),
    ensures
        plain(text::joined(doctor::shown_labels(peers, clean), ", "@)),
{
    let labels = doctor::shown_labels(peers, clean);
    assert forall|i: int| 0 <= i < labels.len() implies plain(#[trigger] labels[i]) by {
        assert(plain(clean(peers[i].label)));
    }
    joined_is_plain(labels);
}

/// No check of the peers in `doctor` has a control character, whatever peers call
/// themselves.
pub proof fn doctor_prints_no_control_characters_of_peers(
    peers: Seq<PeerView>,
    clean: spec_fn(Seq<char>) -> Seq<char>,
)
    requires
        strips(clean),
    ensures
        forall|i: int|
            0 <= i < doctor::peer_checks(peers, clean).len() ==> plain_check(
                #[trigger] doctor::peer_checks(peers, clean)[i],
            ),
{
    broadcast use group_plain;

    reveal_strlit("peers");
    reveal_strlit("none paired");
    reveal_strlit(
        "get this device's id with `byteferret status`, then `byteferret pair --with <id>` on the other machine",
    );
    reveal_strlit("/");
    reveal_strlit(" connected");
    reveal_strlit("folder share");
    reveal_strlit(" connected peer(s) not sharing a folder back: ");
    reveal_strlit(
        "on that machine run `byteferret pair --with <this-device-id> --folder <name>` to share the folder back",
    );
    reveal_strlit(" peer(s) still establishing the share (connected, not yet in sync): ");
    reveal_strlit(
        "give it a moment and re-check `byteferret status`; if it persists, run `byteferret pair --with <this-device-id> --folder <name>` on that machine",
    );
    reveal_strlit("shared both ways with ");
    reveal_strlit(" peer(s)");
    labels_are_plain(
        doctor::peers_in(peers, agent::ShareState::NotSharingBack),
        clean,
    );
    labels_are_plain(doctor::peers_in(peers, agent::ShareState::Establishing), clean);
    let checks = doctor::peer_checks(peers, clean);
    assert(plain_check(doctor::share_check(peers, clean)));
    if checks.len() > 0 {
        assert(plain_check(checks[0]));
    }
}

proof fn version_line_is_plain(v: VersionView)
    requires
        plain(versions::shown_time(v.tag)),
    ensures
        plain(history::version_line(v)),
{
    broadcast use group_plain;

    reveal_strlit("    ");
    reveal_strlit("   ");
    reveal_strlit("-");
    reveal_strlit(".");
    reveal_strlit(" ");
    reveal_strlit(" B");
    reveal_strlit("B");
    reveal_strlit("KB");
    reveal_strlit("MB");
    reveal_strlit("GB");
    reveal_strlit("TB");
    assert(plain(text::signed_decimal(v.size)));
    assert(plain(size::human(v.size)));
}

proof fn listing_is_plain(files: Seq<FileView>, clean: spec_fn(Seq<char>) -> Seq<char>)
    requires
        strips(clean),
        forall|i: int, j: int|
            0 <= i < files.len() && 0 <= j < files[i].versions.len() ==> plain(
                versions::shown_time((#[trigger] files[i].versions[j]).tag),
            ),
    ensures
        all_plain(history::listing(files, clean)),
    decreases files.len(),
{
    broadcast use group_plain;

    if files.len() > 0 {
        let rest = files.drop_last();
        assert forall|i: int, j: int|
            0 <= i < rest.len() && 0 <= j < rest[i].versions.len() implies plain(
            versions::shown_time((#[trigger] rest[i].versions[j]).tag),
        ) by {
            assert(rest[i] == files[i]);
            assert(plain(versions::shown_time(files[i].versions[j].tag)));
        }
        listing_is_plain(rest, clean);
        let f = files.last();
        reveal_strlit("");
        reveal_strlit("  ");
        assert(plain(clean(f.path)));
        let shown = f.versions.map_values(|v: VersionView| history::version_line(v));
        assert forall|j: int| 0 <= j < shown.len() implies plain(#[trigger] shown[j]) by {
            assert(plain(versions::shown_time(files[files.len() - 1].versions[j].tag)));
            version_line_is_plain(f.versions[j]);
        }
        assert(all_plain(shown));
        assert(all_plain(history::file_lines(f, clean)));
    }
}

/// No line of `history` has a control character, whatever the folder and its files are
/// called, where the times of the versions, which are Syncthing's, have none.
pub proof fn history_prints_no_control_characters(
    name: Seq<char>,
    files: Seq<FileView>,
    clean: spec_fn(Seq<char>) -> Seq<char>,
)
    requires
        strips(clean),
        forall|i: int, j: int|
            0 <= i < files.len() && 0 <= j < files[i].versions.len() ==> plain(
                versions::shown_time((#[trigger] files[i].versions[j]).tag),
            ),
    ensures
        all_plain(history::history_lines(name, files, clean)),
{
    broadcast use group_plain;

    reveal_strlit("");
    reveal_strlit("No history for '");
    reveal_strlit("' yet.");
    reveal_strlit(
        "Versions are recorded only when a change arrives from a paired device — your own",
    );
    reveal_strlit(
        "local edits here are not versioned on this machine. It is also forward-only, so",
    );
    reveal_strlit("nothing from before history was enabled can be recovered.");
    reveal_strlit(" — ");
    reveal_strlit(" version(s) across ");
    reveal_strlit(" file(s):");
    reveal_strlit("Restore one with:  byteferret restore ");
    reveal_strlit(" <file> [--at <time>]");
    assert(plain(clean(name)));
    listing_is_plain(files, clean);
}

} // verus!
