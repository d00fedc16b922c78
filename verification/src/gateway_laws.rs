//! What holds of how a gateway and its nodes are set up, whom they listen to, and what they write
//! down about it.
use vstd::prelude::*;
use vstd::utf8::encode_utf8;

use crate::access::{admin_verdict, bumped, AdminVerdict};
use crate::audit::{event_line, file_in, AuditEvent};
use crate::bootstrap::{
    boot_refusal, dir_of, hosts, is_embedded_node, is_tls_plan, is_trusted, opt_key, orphans, pubkey_in,
    recovered, unless_zero, zones_of, BootstrapConfig, EmbeddedNode, ManifestState, Nodes, TlsOptions,
    TlsPlan,
};
use crate::chaos::{carried, code_kind, kind_code, ErrorKind, Fault};
use crate::compaction::{
    garbage_ops, is_garbage, is_wal_file, rep_is, wal_bytes, worth_compacting, CompactionReport,
    Sized64,
};
use crate::config_file::{
    added, bool_text, config_arg, first_line, none_is_set, number_text, one, secret, ConfigFile,
};
use crate::form::opt_text;
use crate::hex::{hex, hex_round_trip, unhex_agrees};
use crate::identity::{ed_verify, in_domain, whitelist_domain};
use crate::json::escaped;
use crate::live::Item;
use crate::store::sum_bytes;
use crate::node_config::{number_or, says_no, says_yes};
use crate::recovery::{compact_name, compact_number};
use crate::store::Op;
use crate::text::{
    after_last, before_last, dec, ends, number, pad_left, starts, texts, trim, trim_end_of,
};
use crate::text_laws::{beginnings_and_ends, lacks, parts_around_the_last_separator, trim_end_of_one};
use crate::wal::{by_number, numbered, segment_name, segment_number, Log};
use crate::whitelist::{accepted, parse_list, signed_blob, SignedList};

verus! {

/// A counter counts one more each time, and starts over behind its greatest value.
pub proof fn counters_count_up(n: u64)
    ensures
        bumped(n) as int == (n + 1) % 0x1_0000_0000_0000_0000,
{
}

/// Each request to the administration is answered by what it lacks: nothing configured, no header,
/// another header.
pub proof fn requests_are_answered_by_what_they_lack(
    expected: Option<Seq<char>>,
    allowed: bool,
    header: Seq<char>,
)
    ensures
        ({
            let v = admin_verdict(expected, allowed, header);
            &&& v == AdminVerdict::Disabled <==> expected is None && !allowed
            &&& v == AdminVerdict::Missing <==> expected is Some && header.len() == 0
            &&& v == AdminVerdict::Bad <==> expected is Some && header.len() > 0 && Some(header) != expected
            &&& v == AdminVerdict::Allowed <==> (expected is None && allowed) || (header.len() > 0
                && Some(header) == expected)
        }),
{
}

/// A file in a directory is in that directory, and has its own name there.
pub proof fn files_are_in_their_directories(dir: Seq<char>, name: Seq<char>)
    requires
        lacks(name, '/'),
    ensures
        after_last(file_in(dir, name), '/') == name,
        dir.len() > 0 && dir.last() != '/' ==> before_last(file_in(dir, name), '/') == dir,
        dir.len() > 0 && dir.last() == '/' ==> before_last(file_in(dir, name), '/') == dir.drop_last(),
        dir.len() == 0 ==> file_in(dir, name) == name,
        dir.len() > 0 && dir.last() != '/' && name.len() > 0 ==> dir_of(file_in(dir, name)) == Some(dir),
{
    reveal_strlit("/");
    if dir.len() == 0 {
        crate::text_laws::last_separator_parts_a_text(name, '/');
    } else if dir.last() == '/' {
        assert(file_in(dir, name) =~= dir.drop_last() + seq!['/'] + name);
        parts_around_the_last_separator(dir.drop_last(), '/', name);
    } else {
        assert(file_in(dir, name) =~= dir + seq!['/'] + name);
        parts_around_the_last_separator(dir, '/', name);
        if name.len() > 0 {
            let p = file_in(dir, name);
            assert(p.last() == name.last());
            trim_end_of_one(p, '/');
            trim_end_of_one(dir, '/');
        }
    }
}

/// A path of one part lies in no directory of its own, one with a slash alone before it in the root;
/// slashes behind the last part change nothing, and slashes alone are no path.
pub proof fn slashes_around_paths_do_not_count(name: Seq<char>, path: Seq<char>)
    requires
        name.len() > 0,
        lacks(name, '/'),
    ensures
        dir_of(name) == Some(Seq::<char>::empty()),
        dir_of(seq!['/'] + name) == Some("/"@),
        dir_of(path.push('/')) == dir_of(path),
        dir_of(Seq::empty()) is None,
{
    reveal_strlit("/");
    let none = Seq::<char>::empty();
    assert(name.last() != '/');
    trim_end_of_one(name, '/');
    crate::text_laws::last_separator_parts_a_text(name, '/');
    crate::text::lemma_rfind(name, '/');
    assert(before_last(name, '/') =~= none);
    trim_end_of_one(none, '/');
    let p = seq!['/'] + name;
    assert(p.last() == name.last());
    trim_end_of_one(p, '/');
    assert(none + seq!['/'] + name =~= p);
    parts_around_the_last_separator(none, '/', name);
    crate::text::lemma_rfind(p, '/');
    assert(p[0] == '/');
    assert(path.push('/').last() == '/');
    assert(path.push('/').drop_last() =~= path);
    assert(trim_end_of(path.push('/'), '/') == trim_end_of(path, '/'));
}

/// A line of the log tells when, who, what, to what and with what outcome, in this order, each as it
/// was, and then the details, where there are any.
pub proof fn events_are_told_in_full(e: AuditEvent)
    ensures
        ({
            let front = "{\"ts_unix_ms\":"@ + dec(e.ts_unix_ms as nat) + ",\"actor\":\""@ + escaped(
                e.actor@,
                true,
            ) + "\",\"verb\":\""@ + e.verb@;
            let back = "\",\"target\":\""@ + escaped(e.target@, true) + "\",\"result\":\""@ + e.result@
                + "\""@ + (match e.details_json {
                Some(d) => ",\"details\":"@ + d@,
                None => Seq::<char>::empty(),
            }) + "}\n"@;
            &&& starts(event_line(e), front)
            &&& ends(event_line(e), back)
            &&& event_line(e).len() == front.len() + back.len()
        }),
{
    let front = "{\"ts_unix_ms\":"@ + dec(e.ts_unix_ms as nat) + ",\"actor\":\""@ + escaped(e.actor@, true)
        + "\",\"verb\":\""@ + e.verb@;
    let back = "\",\"target\":\""@ + escaped(e.target@, true) + "\",\"result\":\""@ + e.result@ + "\""@ + (
    match e.details_json {
        Some(d) => ",\"details\":"@ + d@,
        None => Seq::<char>::empty(),
    }) + "}\n"@;
    assert(event_line(e) =~= front + back);
    beginnings_and_ends(front, back, front);
}

/// A key that was written in hexadecimal is read as itself; a text of another length is no key.
pub proof fn keys_are_read_as_they_were_written(k: Seq<u8>, s: Seq<char>)
    requires
        k.len() == 32,
    ensures
        pubkey_in(hex(k)) == Some(k),
        encode_utf8(s).len() != 64 ==> pubkey_in(s) is None,
        pubkey_in(s) matches Some(x) ==> x.len() == 32,
{
    hex_round_trip(k);
    unhex_agrees(encode_utf8(hex(k)), Ok(k));
}

/// Each embedded node has its own directory and port, and stands in the zone that holds its share of
/// the nodes.
pub proof fn embedded_nodes_are_spread_over_the_zones(e: EmbeddedNode, i: int, n: nat, base_port: u16)
    requires
        n >= 4,
        0 <= i < n,
        is_embedded_node(e, i, n, base_port),
    ensures
        e.port - base_port == i,
        starts(e.dir@, "node_"@),
        number(e.dir@.skip(5), u64::MAX as nat) == if i <= u64::MAX {
            Some(i as nat)
        } else {
            None
        } || i > u64::MAX,
        e.zone * (n / 4) <= i < (e.zone + 1) * (n / 4),
        i < 4 * (n / 4) ==> e.zone < 4,
{
    reveal_strlit("node_");
    let tail = pad_left(dec(i as nat), 2, '0');
    beginnings_and_ends("node_"@, tail, tail);
    assert(e.dir@.skip(5) =~= tail);
    if i <= u64::MAX {
        crate::text::padded_round_trip(i as nat, 2, u64::MAX as nat);
    }
    let size = n as int / 4;
    let z = e.zone as int;
    assert(size >= 1);
    assert(z == i / size);
    assert(z * size <= i < (z + 1) * size) by (nonlinear_arith)
        requires
            size >= 1,
            z == i / size,
    ;
    assert(i < 4 * size ==> z < 4) by (nonlinear_arith)
        requires
            size >= 1,
            z == i / size,
    ;
}

/// A list is trusted where the administrator that is named signed just its members, and then alone.
pub proof fn lists_are_trusted_by_their_signature(l: SignedList, admin: Option<Seq<u8>>)
    ensures
        is_trusted(l, admin) <==> admin == Some(l.admin) && ed_verify(
            l.admin,
            encode_utf8("holofs-whitelist-v1"@) + signed_blob(l.members, l.admin),
            l.sig,
        ),
        accepted(l, None) <==> ed_verify(
            l.admin,
            encode_utf8("holofs-whitelist-v1"@) + signed_blob(l.members, l.admin),
            l.sig,
        ),
        accepted(l, admin) && admin is Some ==> is_trusted(l, admin),
{
    let m = signed_blob(l.members, l.admin);
    assert(in_domain(whitelist_domain(), m) =~= encode_utf8("holofs-whitelist-v1"@) + m);
}

/// The zones are those of the nodes, one for each, in their order.
pub proof fn zones_are_those_of_the_nodes(n: Nodes, i: int)
    ensures
        match n {
            Nodes::Embedded(v) => {
                &&& zones_of(n).len() == v@.len()
                &&& 0 <= i < v@.len() ==> zones_of(n)[i] == v@[i].zone
            },
            Nodes::Listed(w) => {
                &&& zones_of(n).len() == w.entries@.len()
                &&& 0 <= i < w.entries@.len() ==> zones_of(n)[i] == w.entries@[i].zone
            },
        },
{
}

/// A cluster starts where its encryption is either off, named in full or not named at all, and its
/// list, where it has one, can be read and is trusted; nothing else stops it.
pub proof fn clusters_start_when_they_can(config: BootstrapConfig, list: Seq<u8>)
    ensures
        boot_refusal(config, list) is None <==> {
            &&& !config.tls.enabled || (config.tls.cert_path is Some && config.tls.key_path is Some
                && config.tls.ca_path is Some) || (config.tls.cert_path is None && config.tls.key_path is None
                && config.tls.ca_path is None)
            &&& config.whitelist is Some ==> parse_list(list) is Ok && is_trusted(
                parse_list(list)->Ok_0,
                opt_key(config.admin_pubkey),
            )
        },
{
}

/// After a restart nothing is being encoded; what was counts as failed, and nothing else changes.
pub proof fn restart_gives_up_what_was_being_encoded(s: ManifestState)
    ensures
        recovered(s) != ManifestState::Encoding,
        s == ManifestState::Encoding ==> recovered(s) == ManifestState::Failed,
        s != ManifestState::Encoding ==> recovered(s) == s,
{
}

/// What a restart gave up is told in full, in order, and nothing else is.
pub proof fn all_that_was_given_up_is_told(v: Seq<ManifestState>, n: nat)
    requires
        n <= v.len(),
        n <= usize::MAX,
    ensures
        forall|i: int|
            0 <= i < n ==> (orphans(v, n).contains(i as usize) <==> #[trigger] v[i] == ManifestState::Encoding),
        forall|a: int|
            0 <= a < orphans(v, n).len() ==> (#[trigger] orphans(v, n)[a]) < n && v[orphans(v, n)[a] as int]
                == ManifestState::Encoding,
        forall|a: int, b: int|
            0 <= a < b < orphans(v, n).len() ==> #[trigger] orphans(v, n)[a] < #[trigger] orphans(v, n)[b],
    decreases n,
{
    if n > 0 {
        let m = (n - 1) as nat;
        all_that_was_given_up_is_told(v, m);
        let o = orphans(v, n);
        let p = orphans(v, m);
        if v[n - 1] == ManifestState::Encoding {
            assert(o == p.push(m as usize));
            assert(o[p.len() as int] == m as usize);
            assert forall|i: int| 0 <= i < n implies (o.contains(i as usize) <==> #[trigger] v[i]
                == ManifestState::Encoding) by {
                if i < m {
                    if p.contains(i as usize) {
                        let a = choose|a: int| 0 <= a < p.len() && p[a] == i as usize;
                        assert(o[a] == i as usize);
                    }
                    if o.contains(i as usize) {
                        let a = choose|a: int| 0 <= a < o.len() && o[a] == i as usize;
                        assert(a < p.len());
                        assert(p[a] == i as usize);
                    }
                }
            }
            assert forall|a: int| 0 <= a < o.len() implies (#[trigger] o[a]) < n && v[o[a] as int]
                == ManifestState::Encoding by {
                if a < p.len() {
                    assert(o[a] == p[a]);
                }
            }
            assert forall|a: int, b: int| 0 <= a < b < o.len() implies #[trigger] o[a] < #[trigger] o[b] by {
                assert(o[a] == p[a]);
                if b < p.len() {
                    assert(o[b] == p[b]);
                }
            }
        } else {
            assert forall|i: int| 0 <= i < n implies (o.contains(i as usize) <==> #[trigger] v[i]
                == ManifestState::Encoding) by {
                if i == m && o.contains(i as usize) {
                    let a = choose|a: int| 0 <= a < o.len() && o[a] == i as usize;
                    assert(p[a] < m);
                }
            }
        }
    }
}

/// An interval of no seconds switches something off, and any other is itself.
pub proof fn no_seconds_mean_never(secs: u64)
    ensures
        unless_zero(secs) is None <==> secs == 0,
        unless_zero(secs) matches Some(n) ==> n == secs,
{
}

/// Connections are secured just where that was asked for; with the files that were named, where
/// they were, and else with certificates for this machine, of which the gateway has one where it has
/// to show one.
pub proof fn connections_are_secured_as_asked_for(opts: TlsOptions, embedded: bool, p: TlsPlan)
    requires
        is_tls_plan(opts, embedded, p),
    ensures
        p is Off <==> !opts.enabled,
        opts.enabled && opts.cert_path is Some && opts.key_path is Some && opts.ca_path is Some ==> {
            &&& p is Files
            &&& p->cert@ == opts.cert_path->0@
            &&& p->key@ == opts.key_path->0@
            &&& p->ca@ == opts.ca_path->0@
            &&& p->mtls == opts.mtls
        },
        opts.enabled && opts.cert_path is None ==> {
            &&& p is SelfSigned
            &&& p->gateway is Some <==> opts.mtls
            &&& hosts(p->node).contains("127.0.0.1"@)
            &&& hosts(p->node).contains("localhost"@)
            &&& hosts(p->node).len() == 2
            &&& p->gateway matches Some(g) ==> hosts(g) == seq!["127.0.0.1"@]
        },
        p matches TlsPlan::Files { embedded: e, .. } ==> e == embedded,
        p matches TlsPlan::SelfSigned { embedded: e, .. } ==> e == embedded,
{
    if let TlsPlan::SelfSigned { node, .. } = p {
        assert(hosts(node)[0] == "127.0.0.1"@);
        assert(hosts(node)[1] == "localhost"@);
    }
}

/// A register tells five kinds of failure apart, each as itself; every other it carries as one of
/// none of them.
pub proof fn registers_tell_failures_apart(kind: ErrorKind, other: ErrorKind)
    ensures
        ({
            let known = kind == ErrorKind::StorageFull || kind == ErrorKind::OutOfMemory || kind
                == ErrorKind::WriteZero || kind == ErrorKind::PermissionDenied || kind
                == ErrorKind::BrokenPipe;
            &&& known ==> code_kind(kind_code(kind)) == kind
            &&& !known ==> code_kind(kind_code(kind)) == ErrorKind::Other
            &&& known && kind_code(kind) == kind_code(other) ==> kind == other
            &&& carried(kind) == code_kind(kind_code(kind))
        }),
        Fault::Append(kind).spec_kind() == kind,
        Fault::Sync(kind).spec_kind() == kind,
        Fault::Disk(kind).spec_kind() == kind,
{
}

/// A log is compacted where it has more than one segment, one before the active, something in the
/// active one, or a compacted segment already; an empty log in one segment is left alone.
pub proof fn empty_logs_are_left_alone(names: Seq<String>, l: Log)
    ensures
        numbered(names).len() > 1 ==> worth_compacting(names, l),
        l.written > 8 ==> worth_compacting(names, l),
        (exists|i: int| 0 <= i < names.len() && compact_number((#[trigger] names[i])@) is Some)
            ==> worth_compacting(names, l),
        (exists|i: int|
            0 <= i < by_number(numbered(names)).len() && (#[trigger] by_number(numbered(names))[i]).0 < l.seq)
            ==> worth_compacting(names, l),
        worth_compacting(names, l) ==> numbered(names).len() > 1 || l.written > 8 || (exists|i: int|
            0 <= i < names.len() && compact_number((#[trigger] names[i])@) is Some) || (exists|i: int|
            0 <= i < by_number(numbered(names)).len() && (#[trigger] by_number(numbered(names))[i]).0
                < l.seq),
{
}

/// The files of the log are its segments, compacted or not, and what is left of a compaction that
/// was cut short; each counts with its whole length, and other files do not count.
pub proof fn length_of_the_log_is_that_of_its_files(files: Seq<Sized64>, f: Sized64, n: u64)
    ensures
        wal_bytes(Seq::empty()) == 0,
        is_wal_file(f.0@) && wal_bytes(files) + f.1 <= u64::MAX ==> wal_bytes(files.push(f)) == wal_bytes(
            files,
        ) + f.1,
        is_wal_file(f.0@) && wal_bytes(files) + f.1 > u64::MAX ==> wal_bytes(files.push(f)) == u64::MAX,
        !is_wal_file(f.0@) ==> wal_bytes(files.push(f)) == wal_bytes(files),
        is_wal_file(segment_name(n)),
        is_wal_file(compact_name(n)),
        is_wal_file(compact_name(n) + ".tmp"@),
        !starts(f.0@, "wal-"@) ==> !is_wal_file(f.0@),
        is_wal_file(f.0@) ==> ends(f.0@, ".seg"@) || ends(f.0@, ".seg.tmp"@),
{
    assert(files.push(f).drop_last() =~= files);
    reveal_strlit("wal-");
    reveal_strlit("wal-c");
    reveal_strlit(".seg");
    reveal_strlit(".tmp");
    reveal_strlit(".seg.tmp");
    let d = pad_left(dec(n as nat), 8, '0');
    beginnings_and_ends("wal-"@, d + ".seg"@, d);
    assert(segment_name(n) =~= "wal-"@ + (d + ".seg"@));
    beginnings_and_ends("wal-"@ + d, ".seg"@, d);
    let c = compact_name(n);
    assert(c =~= "wal-"@ + (seq!['c'] + d + ".seg"@));
    beginnings_and_ends("wal-"@, seq!['c'] + d + ".seg"@, d);
    beginnings_and_ends("wal-c"@ + d, ".seg"@, d);
    let t = c + ".tmp"@;
    assert(".seg.tmp"@ =~= ".seg"@ + ".tmp"@);
    assert(t =~= ("wal-c"@ + d) + ".seg.tmp"@);
    beginnings_and_ends("wal-c"@ + d, ".seg.tmp"@, d);
    assert(t =~= "wal-"@ + (seq!['c'] + d + ".seg"@ + ".tmp"@));
    beginnings_and_ends("wal-"@, seq!['c'] + d + ".seg"@ + ".tmp"@, d);
}

/// A compaction removes the files that it stands for and no other, each once for each time that it
/// is listed, in the order of the list.
pub proof fn only_garbage_is_removed(names: Seq<String>, name: String, epoch: u64)
    ensures
        garbage_ops(Seq::empty(), epoch).len() == 0,
        is_garbage(name@, epoch) ==> garbage_ops(names.push(name), epoch) == garbage_ops(names, epoch).push(
            Op::Remove { name: name@ },
        ),
        !is_garbage(name@, epoch) ==> garbage_ops(names.push(name), epoch) == garbage_ops(names, epoch),
        segment_number(name@) matches Some(n) ==> (is_garbage(name@, epoch) <==> n <= epoch || (starts(
            name@,
            "wal-"@,
        ) && ends(name@, ".seg.tmp"@)) || (compact_number(name@) matches Some(m) && m < epoch)),
        compact_number(name@) == Some(epoch as nat) && segment_number(name@) is None && !ends(
            name@,
            ".seg.tmp"@,
        ) ==> !is_garbage(name@, epoch),
{
    assert(names.push(name).drop_last() =~= names);
}

/// The report of a compaction tells what it stands for and how much it holds.
pub proof fn reports_tell_what_is_held(r: CompactionReport, epoch: u64, items: Seq<Item>)
    ensures
        rep_is(r, epoch, items) <==> r.epoch == epoch && r.records == items.len() && r.live_bytes == sum_bytes(
            items,
        ) && r.compact_path@ == compact_name(epoch),
{
}

/// A secret is the first line that is not blank, without the white space around it; blank lines
/// before it do not count, nor does what stands behind it.
pub proof fn secrets_are_first_lines(blanks: Seq<Seq<char>>, line: Seq<char>, rest: Seq<Seq<char>>)
    requires
        forall|i: int| 0 <= i < blanks.len() ==> trim(#[trigger] blanks[i]).len() == 0,
        trim(line).len() > 0,
    ensures
        first_line(blanks + seq![line] + rest) == Some(trim(line)),
        first_line(blanks) is None,
    decreases blanks.len(),
{
    let all = blanks + seq![line] + rest;
    if blanks.len() == 0 {
        assert(all[0] == line);
    } else {
        let t = blanks.drop_first();
        assert forall|i: int| 0 <= i < t.len() implies trim(#[trigger] t[i]).len() == 0 by {
            assert(t[i] == blanks[i + 1]);
        }
        assert(trim(blanks[0]).len() == 0);
        secrets_are_first_lines(t, line, rest);
        assert(all[0] == blanks[0]);
        assert(all.drop_first() =~= t + seq![line] + rest);
    }
}

/// A secret that is given outright comes before one in a file.
pub proof fn given_secrets_come_first(given: Seq<char>, file: Option<Seq<char>>)
    ensures
        secret(Some(given), file) == Some(given),
        secret(None, None) is None,
        file matches Some(t) ==> secret(None, file) == first_line(crate::text::lines(t)),
{
}

/// What a file sets, it sets as it stands there, and only where the environment does not set it.
pub proof fn environment_comes_before_the_file(key: Seq<char>, value: Seq<char>, set: Seq<String>, n: nat)
    ensures
        one(key, None, set).len() == 0,
        texts(set).contains(key) ==> one(key, Some(value), set).len() == 0,
        !texts(set).contains(key) ==> one(key, Some(value), set) == seq![(key, value)],
        bool_text(Some(true)) == Some("true"@),
        bool_text(Some(false)) == Some("false"@),
        bool_text(None) is None,
        number_text(None) is None,
        number_text(Some(n)) matches Some(t) && number(t, n) == Some(n),
{
    crate::text_laws::number_of_dec(n, n);
}

/// Whether a list of variables sets one to a value.
pub open spec fn sets(v: Seq<(Seq<char>, Seq<char>)>, key: Seq<char>, value: Seq<char>) -> bool {
    v.contains((key, value))
}

/// Every value of a file comes to the variable that it is for, where the environment leaves that
/// open.
pub proof fn values_of_a_file_reach_their_variables(
    c: ConfigFile,
    admin: Option<Seq<char>>,
    mcp: Option<Seq<char>>,
    set: Seq<String>,
    k: Seq<char>,
    v: Seq<char>,
)
    requires
        !texts(set).contains(k),
        ({
            ||| k == "LEPTOS_SITE_ADDR"@ && opt_text(c.server.addr) == Some(v)
            ||| k == "HOLOFS_STORAGE_DIR"@ && opt_text(c.server.storage) == Some(v)
            ||| k == "HOLOFS_CATALOG"@ && opt_text(c.server.catalog) == Some(v)
            ||| k == "HOLOFS_LOG"@ && opt_text(c.server.log) == Some(v)
            ||| k == "HOLOFS_LOG_FORMAT"@ && opt_text(c.server.log_format) == Some(v)
            ||| k == "HOLOFS_METRICS_LISTEN"@ && opt_text(c.server.metrics_listen) == Some(v)
            ||| k == "HOLOFS_TLS"@ && bool_text(c.tls.enabled) == Some(v)
            ||| k == "HOLOFS_MTLS"@ && bool_text(c.tls.mtls) == Some(v)
            ||| k == "HOLOFS_TLS_CERT"@ && opt_text(c.tls.cert) == Some(v)
            ||| k == "HOLOFS_TLS_KEY"@ && opt_text(c.tls.key) == Some(v)
            ||| k == "HOLOFS_TLS_CA_CERT"@ && opt_text(c.tls.ca_cert) == Some(v)
            ||| k == "HOLOFS_WHITELIST"@ && opt_text(c.cluster.whitelist) == Some(v)
            ||| k == "HOLOFS_ADMIN_PUBKEY"@ && opt_text(c.cluster.admin_pubkey) == Some(v)
            ||| k == "HOLOFS_SEED_PHOTO"@ && opt_text(c.cluster.seed_photo) == Some(v)
            ||| k == "HOLOFS_NO_SEED"@ && bool_text(c.cluster.no_seed) == Some(v)
            ||| k == "HOLOFS_ENABLE_EMBED"@ && bool_text(c.features.embed) == Some(v)
            ||| k == "HOLOFS_ENABLE_VERSIONS"@ && bool_text(c.features.versions) == Some(v)
            ||| k == "HOLOFS_ADMIN_TOKEN"@ && admin == Some(v)
            ||| k == "HOLOFS_ADMIN_UNAUTHENTICATED"@ && bool_text(c.admin.unauthenticated) == Some(v)
            ||| k == "HOLOFS_MCP_TOKEN"@ && mcp == Some(v)
            ||| k == "HOLOFS_EMBED_BASE_PORT"@ && (c.cluster.embed_base_port matches Some(n) && v == dec(
                n as nat,
            ))
            ||| k == "HOLOFS_MEDIUM_CONCURRENCY"@ && (c.reliability.medium_concurrency matches Some(n) && v
                == dec(n as nat))
            ||| k == "HOLOFS_LONG_CONCURRENCY"@ && (c.reliability.long_concurrency matches Some(n) && v
                == dec(n as nat))
            ||| k == "HOLOFS_SCRUB_INTERVAL"@ && (c.reliability.scrub_interval_secs matches Some(n) && v
                == dec(n as nat))
            ||| k == "HOLOFS_REPUTATION_PERSIST_INTERVAL"@ && (
            c.reliability.reputation_persist_interval_secs matches Some(n) && v == dec(n as nat))
            ||| k == "HOLOFS_MONITOR_INTERVAL"@ && (c.reliability.monitor_interval_secs matches Some(n) && v
                == dec(n as nat))
            ||| k == "HOLOFS_AUDIT_INTERVAL"@ && (c.reliability.audit_interval_secs matches Some(n) && v
                == dec(n as nat))
            ||| k == "HOLOFS_RPC_TIMEOUT_MS"@ && (c.reliability.rpc_timeout_ms matches Some(n) && v == dec(
                n as nat,
            ))
            ||| k == "HOLOFS_VERSIONS_KEEP_LAST"@ && (c.reliability.versions_keep_last matches Some(n) && v
                == dec(n as nat))
            ||| k == "HOLOFS_UPLOAD_MAX_SIZE"@ && (c.reliability.upload_max_size matches Some(n) && v == dec(
                n as nat,
            ))
        }),
    ensures
        sets(added(c, admin, mcp, set), k, v),
{
    let x = (k, v);
    assert(one(k, Some(v), set)[0] == x);
    lemma_in_either();
}

/// What is in one of two lists is in the two together.
proof fn lemma_in_either()
    ensures
        forall|a: Seq<(Seq<char>, Seq<char>)>, b: Seq<(Seq<char>, Seq<char>)>, x: (Seq<char>, Seq<char>)|
            #[trigger] (a + b).contains(x) <==> a.contains(x) || b.contains(x),
{
    assert forall|a: Seq<(Seq<char>, Seq<char>)>, b: Seq<(Seq<char>, Seq<char>)>, x: (Seq<char>, Seq<char>)|
        #[trigger] (a + b).contains(x) <==> a.contains(x) || b.contains(x) by {
        if a.contains(x) {
            let i = choose|i: int| 0 <= i < a.len() && a[i] == x;
            assert((a + b)[i] == x);
        }
        if b.contains(x) {
            let i = choose|i: int| 0 <= i < b.len() && b[i] == x;
            assert((a + b)[a.len() + i] == x);
        }
        if (a + b).contains(x) {
            let i = choose|i: int| 0 <= i < (a + b).len() && (a + b)[i] == x;
            if i < a.len() {
                assert(a[i] == x);
            } else {
                assert(b[i - a.len()] == x);
            }
        }
    }
}

/// Variables of which none is set are not set: where one of them were, it would be among those that
/// are.
pub proof fn variables_that_are_set_stay(
    v: Seq<(Seq<char>, Seq<char>)>,
    set: Seq<String>,
    key: Seq<char>,
    value: Seq<char>,
)
    ensures
        none_is_set(v, set) && texts(set).contains(key) ==> !sets(v, key, value),
        (forall|k: Seq<char>, x: Seq<char>| #[trigger] sets(v, k, x) ==> !texts(set).contains(k))
            ==> none_is_set(v, set),
{
    if none_is_set(v, set) && sets(v, key, value) {
        let i = choose|i: int| 0 <= i < v.len() && v[i] == (key, value);
        assert(!texts(set).contains(v[i].0));
    }
    if forall|k: Seq<char>, x: Seq<char>| #[trigger] sets(v, k, x) ==> !texts(set).contains(k) {
        assert forall|i: int| 0 <= i < v.len() implies !texts(set).contains((#[trigger] v[i]).0) by {
            assert(v[i] == (v[i].0, v[i].1));
            assert(sets(v, v[i].0, v[i].1));
        }
    }
}

/// The command line names a configuration file behind `--config` or in one argument with it; other
/// arguments before that do not count.
pub proof fn command_line_names_the_file(path: Seq<char>, other: Seq<char>, rest: Seq<Seq<char>>)
    ensures
        config_arg(seq!["--config"@, path] + rest) == Some(path),
        config_arg(seq!["--config="@ + path] + rest) == Some(path),
        config_arg(seq!["--config"@]) is None,
        config_arg(Seq::empty()) is None,
        other != "--config"@ && !starts(other, "--config="@) ==> config_arg(seq![other] + rest)
            == config_arg(rest),
{
    reveal_strlit("--config");
    reveal_strlit("--config=");
    let a = seq!["--config"@, path] + rest;
    assert(a[0] == "--config"@ && a[1] == path);
    let b = seq!["--config="@ + path] + rest;
    beginnings_and_ends("--config="@, path, path);
    assert(b[0] == "--config="@ + path);
    assert(b[0].len() >= 9);
    assert(b[0].skip(9) =~= path);
    let c = seq![other] + rest;
    assert(c[0] == other);
    assert(c.drop_first() =~= rest);
    assert(seq!["--config"@][0] == "--config"@);
}

/// A number in the environment is read where it is one; else what is usual holds. Three words say
/// yes, three say no, and none says both.
pub proof fn variables_say_what_they_say(v: Option<String>, default: u64)
    ensures
        v is None ==> number_or(v, default) == default && !says_yes(v) && !says_no(v),
        v matches Some(s) ==> {
            &&& number(s@, u64::MAX as nat) is None ==> number_or(v, default) == default
            &&& number(s@, u64::MAX as nat) matches Some(n) ==> number_or(v, default) == n
            &&& says_yes(v) <==> s@ == "1"@ || s@ == "true"@ || s@ == "yes"@
            &&& says_no(v) <==> s@ == "0"@ || s@ == "false"@ || s@ == "no"@
        },
        !(says_yes(v) && says_no(v)),
{
    reveal_strlit("1");
    reveal_strlit("true");
    reveal_strlit("yes");
    reveal_strlit("0");
    reveal_strlit("false");
    reveal_strlit("no");
    if let Some(s) = v {
        assert("1"@[0] == '1' && "true"@[0] == 't' && "yes"@[0] == 'y');
        assert("0"@[0] == '0' && "false"@[0] == 'f' && "no"@[0] == 'n');
    }
}

} // verus!
