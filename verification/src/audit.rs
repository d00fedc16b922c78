//! The log of what administrators do: one line of JSON for each action.
use vstd::prelude::*;
use vstd::string::StringExecFns;

use crate::json::{escaped, escaped_text_has_no_line_feed, json_escape_into};
use crate::text::{chars_of, dec, dec_string, lowered, lowered_chars};
use crate::text_laws::{lacks, number_of_dec};

verus! {

/// Something that an administrator did.
#[derive(Debug, Clone)]
pub struct AuditEvent {
    /// When, in milliseconds since 1970.
    pub ts_unix_ms: u64,
    /// Who.
    pub actor: String,
    /// What.
    pub verb: &'static str,
    /// To what.
    pub target: String,
    /// With what outcome.
    pub result: &'static str,
    /// More about it, in JSON.
    pub details_json: Option<String>,
}

/// An event as one line of JSON.
pub open spec fn event_line(e: AuditEvent) -> Seq<char> {
    "{\"ts_unix_ms\":"@ + dec(e.ts_unix_ms as nat) + ",\"actor\":\""@ + escaped(e.actor@, true)
        + "\",\"verb\":\""@ + e.verb@ + "\",\"target\":\""@ + escaped(e.target@, true)
        + "\",\"result\":\""@ + e.result@ + "\""@ + (match e.details_json {
        Some(d) => ",\"details\":"@ + d@,
        None => Seq::empty(),
    }) + "}\n"@
}

impl AuditEvent {
    /// An event of the holder of the admin token, without details.
    pub fn now(ts_unix_ms: u64, verb: &'static str, target: String, result: &'static str) -> (r: AuditEvent)
        ensures
            r.ts_unix_ms == ts_unix_ms,
            r.actor@ == "admin_token"@,
            r.verb@ == verb@,
            r.target == target,
            r.result@ == result@,
            r.details_json is None,
    {
        AuditEvent {
            ts_unix_ms,
            actor: String::from_str("admin_token"),
            verb,
            target,
            result,
            details_json: None,
        }
    }

    /// The event with details.
    pub fn with_details(self, details_json: String) -> (r: AuditEvent)
        ensures
            r == (AuditEvent { details_json: Some(details_json), ..self }),
    {
        AuditEvent { details_json: Some(details_json), ..self }
    }

    /// The event as one line of JSON.
    pub fn to_jsonl(&self) -> (r: String)
        ensures
            r@ == event_line(*self),
    {
        let mut buf = String::new();
        buf.append("{\"ts_unix_ms\":");
        buf.append(dec_string(self.ts_unix_ms).as_str());
        buf.append(",\"actor\":\"");
        json_escape_into(self.actor.as_str(), &mut buf);
        buf.append("\",\"verb\":\"");
        buf.append(self.verb);
        buf.append("\",\"target\":\"");
        json_escape_into(self.target.as_str(), &mut buf);
        buf.append("\",\"result\":\"");
        buf.append(self.result);
        buf.append("\"");
        match &self.details_json {
            Some(d) => {
                buf.append(",\"details\":");
                buf.append(d.as_str());
            },
            None => {},
        }
        buf.append("}\n");
        assert(buf@ =~= event_line(*self));
        buf
    }
}

/// An event takes exactly one line, whatever its actor and its target, unless verb, result
/// or details have line feeds of their own.
pub proof fn event_takes_one_line(e: AuditEvent)
    requires
        lacks(e.verb@, '\n'),
        lacks(e.result@, '\n'),
        e.details_json matches Some(d) ==> lacks(d@, '\n'),
    ensures
        event_line(e).len() > 0,
        event_line(e).last() == '\n',
        lacks(event_line(e).drop_last(), '\n'),
{
    reveal_strlit("{\"ts_unix_ms\":");
    reveal_strlit(",\"actor\":\"");
    reveal_strlit("\",\"verb\":\"");
    reveal_strlit("\",\"target\":\"");
    reveal_strlit("\",\"result\":\"");
    reveal_strlit("\"");
    reveal_strlit(",\"details\":");
    reveal_strlit("}\n");
    let d = dec(e.ts_unix_ms as nat);
    number_of_dec(e.ts_unix_ms as nat, u64::MAX as nat);
    assert(lacks(d, '\n')) by {
        assert(forall|i: int| 0 <= i < d.len() ==> crate::text::is_digit(#[trigger] d[i]));
    }
    escaped_text_has_no_line_feed(e.actor@, true);
    escaped_text_has_no_line_feed(e.target@, true);
    let det = match e.details_json {
        Some(t) => ",\"details\":"@ + t@,
        None => Seq::empty(),
    };
    let p1 = "{\"ts_unix_ms\":"@ + d;
    let p2 = p1 + ",\"actor\":\""@ + escaped(e.actor@, true);
    let p3 = p2 + "\",\"verb\":\""@ + e.verb@;
    let p4 = p3 + "\",\"target\":\""@ + escaped(e.target@, true);
    let p5 = p4 + "\",\"result\":\""@ + e.result@ + "\""@;
    let p6 = p5 + det + seq!['}'];
    assert(lacks(p1, '\n'));
    assert(lacks(p2, '\n'));
    assert(lacks(p3, '\n'));
    assert(lacks(p4, '\n'));
    assert(lacks(p5, '\n'));
    assert(lacks(det, '\n'));
    assert(lacks(p6, '\n'));
    assert(event_line(e) =~= p6.push('\n'));
    assert(event_line(e).drop_last() =~= p6);
}

/// A file in a directory.
pub open spec fn file_in(dir: Seq<char>, name: Seq<char>) -> Seq<char> {
    if dir.len() == 0 {
        name
    } else if dir.last() == '/' {
        dir + name
    } else {
        dir + "/"@ + name
    }
}

/// A file in a directory.
pub fn path_in(dir: &str, name: &str) -> (r: String)
    ensures
        r@ == file_in(dir@, name@),
{
    let v = chars_of(dir);
    if v.len() == 0 {
        String::from_str(name)
    } else if v[v.len() - 1] == '/' {
        String::from_str(dir).concat(name)
    } else {
        String::from_str(dir).concat("/").concat(name)
    }
}

/// Where the log is kept: in the storage directory, unless the setting says where, or that
/// there is none.
pub fn resolve_audit_log_path(storage_dir: &str, env_val: Option<&str>) -> (r: Option<String>)
    ensures
        match env_val {
            None => r matches Some(p) && p@ == file_in(storage_dir@, "audit.log"@),
            Some(v) => if lowered(v@) == "off"@ {
                r is None
            } else {
                r matches Some(p) && p@ == v@
            },
        },
{
    match env_val {
        None => Some(path_in(storage_dir, "audit.log")),
        Some(v) => {
            let c = chars_of(v);
            let low = lowered_chars(c.as_slice());
            if crate::text::is_text(low.as_slice(), "off") {
                None
            } else {
                Some(String::from_str(v))
            }
        },
    }
}

/// The log of what administrators did: where it is kept, and what has still to be written to it.
#[derive(Debug)]
pub struct AuditLogger {
    pub path: Option<String>,
    pub pending: String,
}

impl AuditLogger {
    /// A log that keeps nothing.
    pub fn disabled() -> (r: AuditLogger)
        ensures
            r.path is None,
            r.pending@ == Seq::<char>::empty(),
    {
        AuditLogger { path: None, pending: String::new() }
    }

    /// A log in a file, if there is one and it could be opened.
    pub fn open_at(path: Option<String>, could_be_opened: bool) -> (r: AuditLogger)
        ensures
            r.path == if could_be_opened {
                path
            } else {
                None
            },
            r.pending@ == Seq::<char>::empty(),
    {
        if could_be_opened {
            AuditLogger { path, pending: String::new() }
        } else {
            AuditLogger::disabled()
        }
    }

    /// Whether events are kept.
    pub fn is_enabled(&self) -> (r: bool)
        ensures
            r == (self.path is Some),
    {
        self.path.is_some()
    }

    /// The file of the log.
    pub fn path(&self) -> (r: Option<&String>)
        ensures
            match r {
                Some(p) => self.path == Some(*p),
                None => self.path is None,
            },
    {
        self.path.as_ref()
    }

    /// Adds an event, where events are kept.
    pub fn log(&mut self, event: &AuditEvent)
        ensures
            final(self).path == old(self).path,
            final(self).pending@ == if old(self).path is Some {
                old(self).pending@ + event_line(*event)
            } else {
                old(self).pending@
            },
    {
        if self.path.is_some() {
            let line = event.to_jsonl();
            self.pending.append(line.as_str());
        }
    }

    /// Hands out what is to be written.
    pub fn take_pending(&mut self) -> (r: String)
        ensures
            r@ == old(self).pending@,
            final(self).path == old(self).path,
            final(self).pending@ == Seq::<char>::empty(),
    {
        let mut r = String::new();
        core::mem::swap(&mut r, &mut self.pending);
        r
    }
}

/// Adds an event to the log of the process, if there is one.
pub fn log_event(logger: &mut Option<AuditLogger>, event: &AuditEvent)
    ensures
        match (*old(logger), *final(logger)) {
            (Some(a), Some(b)) => b.path == a.path && b.pending@ == if a.path is Some {
                a.pending@ + event_line(*event)
            } else {
                a.pending@
            },
            (None, None) => true,
            _ => false,
        },
{
    match logger {
        Some(l) => l.log(event),
        None => {},
    }
}

} // verus!
