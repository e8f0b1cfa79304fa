//! Reading a pi coding-agent session: the compact transcript of a session
//! log, the model it last switched to, the session found from its first
//! line, and the model configuration chosen from pi's settings.
use vstd::prelude::*;
use vstd::utf8::*;

use crate::text::{can_cut, cut_ok, opt_chars, opt_str_chars, owned, push_str, str_eq, truncate_str, truncated};

verus! {

/// One content block of a logged message, its fields read as strings
/// (`None` where absent or not a string).
pub enum Block {
    /// A "text" block.
    Text { text: Option<String> },
    /// A "toolCall" block; `arguments` is its arguments written as JSON.
    ToolCall { name: Option<String>, arguments: Option<String> },
    /// A "toolResult" block.
    ToolResult { tool_name: Option<String> },
    /// Any other block (thinking and the like).
    Other,
}

/// One line of a session log that reads as JSON.
pub enum LogEntry {
    /// A "model_change" event.
    ModelChange { provider: Option<String>, model_id: Option<String> },
    /// A "message" event: its role, and its content blocks when the
    /// content is an array.
    Message { role: Option<String>, content: Option<Vec<Block>> },
    /// Any other line, or a "message" event without a message.
    Other,
}

/// `o`, or `d` where it is missing.
pub open spec fn or_text(o: Option<Seq<char>>, d: Seq<char>) -> Seq<char> {
    match o {
        Some(x) => x,
        None => d,
    }
}

/// Tool arguments as shown: cut to 200 bytes with "..." when longer.
pub open spec fn args_preview(args: Seq<char>) -> Seq<char> {
    if encode_utf8(args).len() > 200 {
        truncated(args, 200) + "..."@
    } else {
        args
    }
}

/// The transcript text of one block of a message with role `role`; `None`
/// where cutting the tool arguments would split a character.
pub open spec fn block_text(role: Seq<char>, b: Block) -> Option<Seq<char>> {
    match b {
        Block::Text { text } => {
            let t = or_text(opt_chars(text), seq![]);
            if t.len() == 0 {
                Some(seq![])
            } else {
                let label = if role == "user"@ {
                    "User"@
                } else {
                    "Assistant"@
                };
                Some("\n["@ + label + "]: "@ + t + "\n"@)
            }
        },
        Block::ToolCall { name, arguments } => {
            let args = or_text(opt_chars(arguments), seq![]);
            if encode_utf8(args).len() > 200 && !cut_ok(args, 200) {
                None
            } else {
                Some(
                    "\n[tool_call: "@ + or_text(opt_chars(name), "unknown"@) + "("@ + args_preview(args)
                        + ")]\n"@,
                )
            }
        },
        Block::ToolResult { tool_name } => Some(
            "\n[tool_result: "@ + or_text(opt_chars(tool_name), "unknown"@) + "]\n"@,
        ),
        Block::Other => Some(seq![]),
    }
}

/// The transcript text of the blocks, in order; `None` if any block's is.
pub open spec fn blocks_text(role: Seq<char>, bs: Seq<Block>) -> Option<Seq<char>>
    decreases bs.len(),
{
    if bs.len() == 0 {
        Some(seq![])
    } else {
        match (blocks_text(role, bs.drop_last()), block_text(role, bs.last())) {
            (Some(a), Some(b)) => Some(a + b),
            _ => None,
        }
    }
}

/// The transcript text of one log entry: model switches and message
/// blocks; anything else gives nothing.
pub open spec fn entry_text(e: LogEntry) -> Option<Seq<char>> {
    match e {
        LogEntry::ModelChange { provider, model_id } => Some(
            "\n[model: "@ + or_text(opt_chars(provider), "?"@) + "/"@ + or_text(
                opt_chars(model_id),
                "?"@,
            ) + "]\n"@,
        ),
        LogEntry::Message { role, content } => match content {
            Some(bs) => blocks_text(or_text(opt_chars(role), "unknown"@), bs@),
            None => Some(seq![]),
        },
        LogEntry::Other => Some(seq![]),
    }
}

/// The text of all entries, in order; `None` if any entry's is.
pub open spec fn entries_text(es: Seq<LogEntry>) -> Option<Seq<char>>
    decreases es.len(),
{
    if es.len() == 0 {
        Some(seq![])
    } else {
        match (entries_text(es.drop_last()), entry_text(es.last())) {
            (Some(a), Some(b)) => Some(a + b),
            _ => None,
        }
    }
}

/// The compact transcript of a session log: user and assistant text, tool
/// calls (arguments cut to 200 bytes) and tool results by name, model
/// switches; `None` when that leaves nothing. The outer `None` is where
/// cutting tool arguments would split a character.
pub open spec fn transcript_spec(es: Seq<LogEntry>) -> Option<Option<Seq<char>>> {
    match entries_text(es) {
        None => None,
        Some(t) => if t.len() == 0 {
            Some(None)
        } else {
            Some(Some(t))
        },
    }
}

fn opt_or<'a>(o: &'a Option<String>, d: &'a str) -> (r: &'a str)
    ensures
        r@ == or_text(opt_chars(*o), d@),
{
    match o {
        Some(x) => x.as_str(),
        None => d,
    }
}

/// The transcript text of one block; `None` where it cannot be made.
fn block_text_exec(role: &str, b: &Block) -> (r: Option<String>)
    ensures
        match r {
            Some(s) => block_text(role@, *b) == Some(s@),
            None => block_text(role@, *b) is None,
        },
{
    proof {
        reveal_strlit("");
    }
    match b {
        Block::Text { text } => {
            let t = opt_or(text, "");
            if t.unicode_len() == 0 {
                return Some(String::new());
            }
            let label = if str_eq(role, "user") {
                "User"
            } else {
                "Assistant"
            };
            let mut m = owned("\n[");
            push_str(&mut m, label);
            push_str(&mut m, "]: ");
            push_str(&mut m, t);
            push_str(&mut m, "\n");
            Some(m)
        },
        Block::ToolCall { name, arguments } => {
            let args = opt_or(arguments, "");
            let blen = args.as_bytes().len();
            let mut m = owned("\n[tool_call: ");
            push_str(&mut m, opt_or(name, "unknown"));
            push_str(&mut m, "(");
            if blen > 200 {
                if !can_cut(args, 200) {
                    return None;
                }
                push_str(&mut m, truncate_str(args, 200));
                push_str(&mut m, "...");
            } else {
                push_str(&mut m, args);
            }
            push_str(&mut m, ")]\n");
            Some(m)
        },
        Block::ToolResult { tool_name } => {
            let mut m = owned("\n[tool_result: ");
            push_str(&mut m, opt_or(tool_name, "unknown"));
            push_str(&mut m, "]\n");
            Some(m)
        },
        Block::Other => Some(String::new()),
    }
}

fn entry_text_exec(e: &LogEntry) -> (r: Option<String>)
    ensures
        match r {
            Some(s) => entry_text(*e) == Some(s@),
            None => entry_text(*e) is None,
        },
{
    match e {
        LogEntry::ModelChange { provider, model_id } => {
            let mut m = owned("\n[model: ");
            push_str(&mut m, opt_or(provider, "?"));
            push_str(&mut m, "/");
            push_str(&mut m, opt_or(model_id, "?"));
            push_str(&mut m, "]\n");
            Some(m)
        },
        LogEntry::Message { role, content } => match content {
            None => Some(String::new()),
            Some(bs) => {
                let rl = opt_or(role, "unknown");
                let ghost bv = bs@;
                proof {
                    assert(entry_text(*e) == blocks_text(rl@, bv));
                }
                let mut out = String::new();
                let mut i: usize = 0;
                while i < bs.len()
                    invariant
                        bv == bs@,
                        i <= bv.len(),
                        blocks_text(rl@, bv.take(i as int)) == Some(out@),
                        entry_text(*e) == blocks_text(rl@, bv),
                    decreases bv.len() - i,
                {
                    proof {
                        crate::seqs::lemma_take_succ(bv, i as int);
                    }
                    match block_text_exec(rl, &bs[i]) {
                        None => {
                            proof {
                                lemma_blocks_none_extends(rl@, bv, i + 1);
                            }
                            return None;
                        },
                        Some(t) => push_str(&mut out, t.as_str()),
                    }
                    i = i + 1;
                }
                proof {
                    crate::seqs::lemma_take_all(bv);
                }
                Some(out)
            },
        },
        LogEntry::Other => Some(String::new()),
    }
}

proof fn lemma_blocks_none_extends(role: Seq<char>, bs: Seq<Block>, j: int)
    requires
        0 <= j <= bs.len(),
        blocks_text(role, bs.take(j)) is None,
    ensures
        blocks_text(role, bs) is None,
    decreases bs.len(),
{
    if j == bs.len() {
        assert(bs.take(j) =~= bs);
    } else {
        assert(bs.drop_last().take(j) =~= bs.take(j));
        lemma_blocks_none_extends(role, bs.drop_last(), j);
    }
}

proof fn lemma_entries_none_extends(es: Seq<LogEntry>, j: int)
    requires
        0 <= j <= es.len(),
        entries_text(es.take(j)) is None,
    ensures
        entries_text(es) is None,
    decreases es.len(),
{
    if j == es.len() {
        assert(es.take(j) =~= es);
    } else {
        assert(es.drop_last().take(j) =~= es.take(j));
        lemma_entries_none_extends(es.drop_last(), j);
    }
}

/// The transcript of a session log, or `None` when there is nothing to
/// show; the outer `None` where cutting tool arguments would split a
/// character.
pub fn try_transcript_of(entries: &Vec<LogEntry>) -> (r: Option<Option<String>>)
    ensures
        match r {
            None => transcript_spec(entries@) is None,
            Some(None) => transcript_spec(entries@) == Some(None::<Seq<char>>),
            Some(Some(t)) => transcript_spec(entries@) == Some(Some(t@)),
        },
{
    let ghost ev = entries@;
    let mut out = String::new();
    let mut i: usize = 0;
    while i < entries.len()
        invariant
            ev == entries@,
            i <= ev.len(),
            entries_text(ev.take(i as int)) == Some(out@),
        decreases ev.len() - i,
    {
        proof {
            crate::seqs::lemma_take_succ(ev, i as int);
        }
        match entry_text_exec(&entries[i]) {
            None => {
                proof {
                    lemma_entries_none_extends(ev, i + 1);
                }
                return None;
            },
            Some(t) => push_str(&mut out, t.as_str()),
        }
        i = i + 1;
    }
    proof {
        crate::seqs::lemma_take_all(ev);
    }
    if out.unicode_len() == 0 {
        Some(None)
    } else {
        Some(Some(out))
    }
}

/// The transcript of a session log: user and assistant text, tool calls
/// (arguments cut to 200 bytes) and tool results by name, and model
/// switches; `None` when that leaves nothing.
pub fn transcript_of(entries: &Vec<LogEntry>) -> (r: Option<String>)
    requires
        transcript_spec(entries@) is Some,
    ensures
        transcript_spec(entries@) == Some(
            match r {
                Some(t) => Some(t@),
                None => None,
            },
        ),
{
    match try_transcript_of(entries) {
        Some(t) => t,
        None => None,
    }
}

/// The provider and model last switched to in a session log; each stays
/// at its earlier value when a switch does not name it.
pub open spec fn latest_model(es: Seq<LogEntry>) -> (Option<Seq<char>>, Option<Seq<char>>)
    decreases es.len(),
{
    if es.len() == 0 {
        (None, None)
    } else {
        let (p, m) = latest_model(es.drop_last());
        match es.last() {
            LogEntry::ModelChange { provider, model_id } => (
                match provider {
                    Some(x) => Some(x@),
                    None => p,
                },
                match model_id {
                    Some(x) => Some(x@),
                    None => m,
                },
            ),
            _ => (p, m),
        }
    }
}

/// The provider and model last switched to in a session log.
pub fn scan_model(entries: &Vec<LogEntry>) -> (r: (Option<String>, Option<String>))
    ensures
        (opt_chars(r.0), opt_chars(r.1)) == latest_model(entries@),
{
    let ghost ev = entries@;
    let mut provider: Option<String> = None;
    let mut model: Option<String> = None;
    let mut i: usize = 0;
    while i < entries.len()
        invariant
            ev == entries@,
            i <= ev.len(),
            (opt_chars(provider), opt_chars(model)) == latest_model(ev.take(i as int)),
        decreases ev.len() - i,
    {
        proof {
            crate::seqs::lemma_take_succ(ev, i as int);
        }
        if let LogEntry::ModelChange { provider: p, model_id: m } = &entries[i] {
            if let Some(x) = p {
                provider = Some(x.clone());
            }
            if let Some(x) = m {
                model = Some(x.clone());
            }
        }
        i = i + 1;
    }
    proof {
        crate::seqs::lemma_take_all(ev);
    }
    (provider, model)
}

/// The active pi session.
pub struct PiSession {
    pub session_id: String,
    pub session_file: String,
    pub cwd: String,
    pub provider: Option<String>,
    pub model: Option<String>,
}

/// The first line of a session log, its fields read as strings.
pub struct SessionMeta {
    pub kind: Option<String>,
    pub id: Option<String>,
    pub cwd: Option<String>,
}

/// The session a log describes: its first line must be a "session" event
/// with an id and a working directory.
pub fn session_from_meta(
    meta: &SessionMeta,
    session_file: &str,
    provider: Option<String>,
    model: Option<String>,
) -> (r: Option<PiSession>)
    ensures
        r is Some <==> (opt_chars(meta.kind) == Some("session"@) && meta.id is Some && meta.cwd is Some),
        r matches Some(s) ==> {
            &&& Some(s.session_id@) == opt_chars(meta.id)
            &&& Some(s.cwd@) == opt_chars(meta.cwd)
            &&& s.session_file@ == session_file@
            &&& opt_chars(s.provider) == opt_chars(provider)
            &&& opt_chars(s.model) == opt_chars(model)
        },
{
    let is_session = match &meta.kind {
        Some(k) => str_eq(k.as_str(), "session"),
        None => false,
    };
    if !is_session {
        return None;
    }
    match (&meta.id, &meta.cwd) {
        (Some(id), Some(cwd)) => Some(
            PiSession {
                session_id: id.clone(),
                session_file: owned(session_file),
                cwd: cwd.clone(),
                provider,
                model,
            },
        ),
        _ => None,
    }
}

/// The model configuration used to call a provider.
pub struct ModelConfig {
    pub provider: String,
    pub model: String,
    pub api_key: Option<String>,
    pub base_url: String,
}

/// What pi's auth file gives for a provider: unreadable (no key), not
/// usable (not JSON, no entry for the provider, or an entry without a
/// key: no configuration at all), or the entry's key (`None` when it is
/// not a string).
pub enum AuthLookup {
    Unreadable,
    Unusable,
    Key(Option<String>),
}

/// The configuration chosen from pi's settings (default provider and
/// model), the provider's entry in its models file (base URL and key) and,
/// when that has no key, its auth file. `None` when a required part is
/// missing.
pub fn model_config_from(
    provider: Option<&str>,
    model: Option<&str>,
    base_url: Option<&str>,
    api_key: Option<&str>,
    auth: &AuthLookup,
) -> (r: Option<ModelConfig>)
    ensures
        r is Some <==> (provider is Some && model is Some && base_url is Some && (api_key is Some
            || !(auth is Unusable))),
        r matches Some(c) ==> {
            &&& Some(c.provider@) == opt_str_chars(provider)
            &&& Some(c.model@) == opt_str_chars(model)
            &&& Some(c.base_url@) == opt_str_chars(base_url)
            &&& opt_chars(c.api_key) == match api_key {
                Some(k) => Some(k@),
                None => match auth {
                    AuthLookup::Key(k) => opt_chars(*k),
                    _ => None,
                },
            }
        },
{
    let (p, m, u) = match (provider, model, base_url) {
        (Some(p), Some(m), Some(u)) => (p, m, u),
        _ => {
            return None;
        },
    };
    let key: Option<String> = match api_key {
        Some(k) => Some(owned(k)),
        None => match auth {
            AuthLookup::Unreadable => None,
            AuthLookup::Unusable => {
                return None;
            },
            AuthLookup::Key(k) => match k {
                Some(x) => Some(x.clone()),
                None => None,
            },
        },
    };
    Some(ModelConfig { provider: owned(p), model: owned(m), api_key: key, base_url: owned(u) })
}

} // verus!
