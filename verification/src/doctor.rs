//! Lines of the `/doctor` report.
use vstd::prelude::*;
use crate::text::{decimal, decimal_string, push_str};
use crate::questionnaire::{join_seqs, join_strings};
use crate::width::strings_view;

verus! {

/// The tag of a report line: "ok" or "warn".
pub open spec fn tone_text(ok: bool) -> Seq<char> {
    if ok {
        "ok"@
    } else {
        "warn"@
    }
}

/// The tag of a report line.
pub fn tone(ok: bool) -> (t: &'static str)
    ensures
        t@ == tone_text(ok),
{
    if ok {
        "ok"
    } else {
        "warn"
    }
}

/// The report line on whether `path` (shown as given) is writable.
pub open spec fn writability_text(label: Seq<char>, writable: bool, path: Seq<char>) -> Seq<char> {
    "["@ + tone_text(writable) + "] "@ + label + " writable: "@ + (if writable {
        "yes"@
    } else {
        "no"@
    }) + " ("@ + path + ")"@
}

/// The report line for a location, given whether probing it for writing
/// succeeded.
pub fn writability_line(label: &str, writable: bool, path: &str) -> (line: String)
    ensures
        line@ == writability_text(label@, writable, path@),
{
    let mut line = String::new();
    push_str(&mut line, "[");
    push_str(&mut line, tone(writable));
    push_str(&mut line, "] ");
    push_str(&mut line, label);
    push_str(&mut line, " writable: ");
    push_str(
        &mut line,
        if writable {
            "yes"
        } else {
            "no"
        },
    );
    push_str(&mut line, " (");
    push_str(&mut line, path);
    push_str(&mut line, ")");
    line
}

/// What reading a provider's credentials found.
#[derive(Clone, Copy, Debug, PartialEq, Eq, Structural)]
pub enum AuthStatus {
    /// Set through the environment.
    Environment,
    /// Found in the credential store.
    Stored,
    Missing,
    /// The credential store could not be read.
    StoreError,
}

/// What the report says of a provider's credentials.
pub open spec fn auth_text(a: AuthStatus) -> Seq<char> {
    match a {
        AuthStatus::Environment => "ok (environment)"@,
        AuthStatus::Stored => "ok (credential store)"@,
        AuthStatus::Missing => "missing"@,
        AuthStatus::StoreError => "error reading credential store"@,
    }
}

/// What the doctor found, gathered before the report is written.
pub struct DoctorFacts {
    /// Each provider with what reading its credentials found.
    pub auths: Vec<(String, AuthStatus)>,
    pub provider: String,
    pub model: String,
    /// Whether the selected model can be used with the available auths.
    pub model_available: bool,
    pub config_path: String,
    pub config_writable: bool,
    pub session_root: String,
    pub sessions_writable: bool,
    /// Providers whose models are cached, with how many are.
    pub model_caches: Vec<(String, usize)>,
    /// The clipboard image helpers found.
    pub clipboard_helpers: Vec<String>,
    pub rtk_available: bool,
    pub herdr_enabled: bool,
    pub herdr_socket_reachable: Option<bool>,
}

pub open spec fn auth_line(name: Seq<char>, a: AuthStatus) -> Seq<char> {
    "["@ + tone_text(a == AuthStatus::Environment || a == AuthStatus::Stored) + "] auth "@ + name + ": "@
        + auth_text(a)
}

pub open spec fn model_line(provider: Seq<char>, model: Seq<char>, available: bool) -> Seq<char> {
    "["@ + tone_text(available) + "] selected model: "@ + provider + "/"@ + model + " ("@ + (if available {
        "available"@
    } else {
        "unavailable"@
    }) + ")"@
}

pub open spec fn cache_line(name: Seq<char>, count: nat) -> Seq<char> {
    "["@ + tone_text(count > 0) + "] model cache "@ + name + ": "@ + decimal(count) + " model"@ + (if count == 1 {
        ""@
    } else {
        "s"@
    })
}

pub open spec fn clipboard_line(helpers: Seq<Seq<char>>) -> Seq<char> {
    "["@ + tone_text(helpers.len() > 0) + "] clipboard image helper: "@ + (if helpers.len() == 0 {
        "not found"@
    } else {
        join_seqs(helpers, ", "@)
    })
}

pub open spec fn rtk_line(available: bool) -> Seq<char> {
    "["@ + tone_text(available) + "] rtk: "@ + (if available {
        "available"@
    } else {
        "unavailable"@
    })
}

pub open spec fn herdr_text(enabled: bool, reachable: Option<bool>) -> Seq<char> {
    if !enabled {
        "not configured"@
    } else {
        match reachable {
            Some(true) => "connected environment and socket present"@,
            Some(false) => "configured but socket missing"@,
            None => "configured"@,
        }
    }
}

pub open spec fn herdr_line(enabled: bool, reachable: Option<bool>) -> Seq<char> {
    "["@ + tone_text(!enabled || reachable == Some(true)) + "] Herdr: "@ + herdr_text(enabled, reachable)
}

/// The lines of the doctor's report: a title, each provider's
/// credentials, the selected model, whether the configuration and the
/// sessions can be written, each model cache, the clipboard helpers, rtk
/// and Herdr.
pub open spec fn report_lines(f: DoctorFacts) -> Seq<Seq<char>> {
    seq!["rho doctor"@] + Seq::new(f.auths@.len(), |i: int| auth_line(f.auths@[i].0@, f.auths@[i].1)) + seq![
        model_line(f.provider@, f.model@, f.model_available),
        writability_text("config"@, f.config_writable, f.config_path@),
        writability_text("sessions"@, f.sessions_writable, f.session_root@),
    ] + Seq::new(f.model_caches@.len(), |i: int| cache_line(f.model_caches@[i].0@, f.model_caches@[i].1 as nat))
        + seq![
        clipboard_line(strings_view(f.clipboard_helpers@)),
        rtk_line(f.rtk_available),
        herdr_line(f.herdr_enabled, f.herdr_socket_reachable),
    ]
}

fn push_line(lines: &mut Vec<String>, line: String)
    ensures
        strings_view(final(lines)@) == strings_view(old(lines)@).push(line@),
{
    let ghost before = strings_view(lines@);
    lines.push(line);
    assert(strings_view(lines@) =~= before.push(line@));
}

/// The doctor's report (see `report_lines`).
pub fn report(facts: &DoctorFacts) -> (lines: Vec<String>)
    ensures
        strings_view(lines@) == report_lines(*facts),
{
    let mut lines: Vec<String> = Vec::new();
    push_line(&mut lines, String::from_str("rho doctor"));
    let ghost head = strings_view(lines@);
    let mut i: usize = 0;
    while i < facts.auths.len()
        invariant
            i <= facts.auths@.len(),
            strings_view(lines@) == head + Seq::new(
                i as nat,
                |k: int| auth_line(facts.auths@[k].0@, facts.auths@[k].1),
            ),
        decreases facts.auths@.len() - i,
    {
        let (name, status) = (&facts.auths[i].0, facts.auths[i].1);
        let ok = match status {
            AuthStatus::Environment => true,
            AuthStatus::Stored => true,
            _ => false,
        };
        let text = match status {
            AuthStatus::Environment => "ok (environment)",
            AuthStatus::Stored => "ok (credential store)",
            AuthStatus::Missing => "missing",
            AuthStatus::StoreError => "error reading credential store",
        };
        let mut line = String::from_str("[");
        push_str(&mut line, tone(ok));
        push_str(&mut line, "] auth ");
        push_str(&mut line, name.as_str());
        push_str(&mut line, ": ");
        push_str(&mut line, text);
        let ghost before = strings_view(lines@);
        push_line(&mut lines, line);
        proof {
            assert(line@ =~= auth_line(facts.auths@[i as int].0@, facts.auths@[i as int].1));
            assert(head + Seq::new(i as nat + 1, |k: int| auth_line(facts.auths@[k].0@, facts.auths@[k].1))
                =~= before.push(line@));
        }
        i += 1;
    }
    let mut model = String::from_str("[");
    push_str(&mut model, tone(facts.model_available));
    push_str(&mut model, "] selected model: ");
    push_str(&mut model, facts.provider.as_str());
    push_str(&mut model, "/");
    push_str(&mut model, facts.model.as_str());
    push_str(&mut model, " (");
    push_str(
        &mut model,
        if facts.model_available {
            "available"
        } else {
            "unavailable"
        },
    );
    push_str(&mut model, ")");
    push_line(&mut lines, model);
    push_line(&mut lines, writability_line("config", facts.config_writable, facts.config_path.as_str()));
    push_line(&mut lines, writability_line("sessions", facts.sessions_writable, facts.session_root.as_str()));
    proof {
        assert(model@ =~= model_line(facts.provider@, facts.model@, facts.model_available));
    }
    let ghost mid = strings_view(lines@);
    let mut j: usize = 0;
    while j < facts.model_caches.len()
        invariant
            j <= facts.model_caches@.len(),
            strings_view(lines@) == mid + Seq::new(
                j as nat,
                |k: int| cache_line(facts.model_caches@[k].0@, facts.model_caches@[k].1 as nat),
            ),
        decreases facts.model_caches@.len() - j,
    {
        let name = &facts.model_caches[j].0;
        let count = facts.model_caches[j].1;
        let mut line = String::from_str("[");
        push_str(&mut line, tone(count > 0));
        push_str(&mut line, "] model cache ");
        push_str(&mut line, name.as_str());
        push_str(&mut line, ": ");
        let number = decimal_string(count as u64);
        push_str(&mut line, number.as_str());
        push_str(&mut line, " model");
        push_str(
            &mut line,
            if count == 1 {
                ""
            } else {
                "s"
            },
        );
        let ghost before = strings_view(lines@);
        push_line(&mut lines, line);
        proof {
            assert(line@ =~= cache_line(facts.model_caches@[j as int].0@, facts.model_caches@[j as int].1 as nat));
            assert(mid + Seq::new(
                j as nat + 1,
                |k: int| cache_line(facts.model_caches@[k].0@, facts.model_caches@[k].1 as nat),
            ) =~= before.push(line@));
        }
        j += 1;
    }
    let mut clip = String::from_str("[");
    push_str(&mut clip, tone(facts.clipboard_helpers.len() > 0));
    push_str(&mut clip, "] clipboard image helper: ");
    if facts.clipboard_helpers.len() == 0 {
        push_str(&mut clip, "not found");
    } else {
        let joined = join_strings(&facts.clipboard_helpers, ", ");
        push_str(&mut clip, joined.as_str());
    }
    proof {
        assert(clip@ =~= clipboard_line(strings_view(facts.clipboard_helpers@)));
    }
    push_line(&mut lines, clip);
    let mut rtk = String::from_str("[");
    push_str(&mut rtk, tone(facts.rtk_available));
    push_str(&mut rtk, "] rtk: ");
    push_str(
        &mut rtk,
        if facts.rtk_available {
            "available"
        } else {
            "unavailable"
        },
    );
    proof {
        assert(rtk@ =~= rtk_line(facts.rtk_available));
    }
    push_line(&mut lines, rtk);
    let herdr_ok = !facts.herdr_enabled || match facts.herdr_socket_reachable {
        Some(true) => true,
        _ => false,
    };
    let herdr = if !facts.herdr_enabled {
        "not configured"
    } else {
        match facts.herdr_socket_reachable {
            Some(true) => "connected environment and socket present",
            Some(false) => "configured but socket missing",
            None => "configured",
        }
    };
    let mut hl = String::from_str("[");
    push_str(&mut hl, tone(herdr_ok));
    push_str(&mut hl, "] Herdr: ");
    push_str(&mut hl, herdr);
    proof {
        assert(hl@ =~= herdr_line(facts.herdr_enabled, facts.herdr_socket_reachable));
    }
    push_line(&mut lines, hl);
    assert(strings_view(lines@) =~= report_lines(*facts));
    lines
}

/// The clipboard image helpers worth looking for on an operating system
/// (named as `std::env::consts::OS` names it): `wl-paste` and `xclip` on
/// Linux, `pngpaste` on macOS, `powershell` on Windows, none elsewhere.
pub fn clipboard_candidates(os: &str) -> (names: Vec<String>)
    ensures
        strings_view(names@) == if os@ == "linux"@ {
            seq!["wl-paste"@, "xclip"@]
        } else if os@ == "macos"@ {
            seq!["pngpaste"@]
        } else if os@ == "windows"@ {
            seq!["powershell"@]
        } else {
            Seq::empty()
        },
{
    let v = crate::text::chars_of(os);
    let mut names: Vec<String> = Vec::new();
    if crate::goal::chars_eq(&v, "linux") {
        names.push(String::from_str("wl-paste"));
        names.push(String::from_str("xclip"));
    } else if crate::goal::chars_eq(&v, "macos") {
        names.push(String::from_str("pngpaste"));
    } else if crate::goal::chars_eq(&v, "windows") {
        names.push(String::from_str("powershell"));
    }
    proof {
        if os@ == "linux"@ {
            assert(strings_view(names@) =~= seq!["wl-paste"@, "xclip"@]);
        } else if os@ == "macos"@ {
            assert(strings_view(names@) =~= seq!["pngpaste"@]);
        } else if os@ == "windows"@ {
            assert(strings_view(names@) =~= seq!["powershell"@]);
        } else {
            assert(strings_view(names@) =~= Seq::<Seq<char>>::empty());
        }
    }
    names
}

} // verus!
