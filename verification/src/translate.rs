//! The protocol translator: maps upstream gateway events into the
//! canonical downstream form, drops event housekeeping and tool chatter,
//! and passes unknown payloads through unchanged.

use vstd::prelude::*;

verus! {

use vstd::string::StringExecFns;
use crate::strutil::{str_eq, string_push};
use crate::sessions::opt_view;
use crate::frames::{frame_spec, build_downstream_frame};

/// One item of an upstream chat message's content array.
pub struct ContentItem {
    pub item_type: Option<String>,
    pub text: Option<String>,
}

/// Mathematical model of a content item.
pub struct ContentItemModel {
    pub item_type: Option<Seq<char>>,
    pub text: Option<Seq<char>>,
}

impl View for ContentItem {
    type V = ContentItemModel;

    open spec fn view(&self) -> ContentItemModel {
        ContentItemModel { item_type: opt_view(self.item_type), text: opt_view(self.text) }
    }
}

pub open spec fn items_view(v: Seq<ContentItem>) -> Seq<ContentItemModel> {
    Seq::new(v.len(), |i: int| v[i]@)
}

/// What the translator reads of one upstream event; absent or non-string
/// wire fields arrive as `None`.
pub struct GatewayEvent {
    pub housekeeping: Option<String>,
    pub event_type: Option<String>,
    pub stream: Option<String>,
    pub session_key: Option<String>,
    pub phase: Option<String>,
    pub text: Option<String>,
    pub state: Option<String>,
    pub content: Vec<ContentItem>,
}

/// Mathematical model of an upstream event.
pub struct GatewayEventModel {
    pub housekeeping: Option<Seq<char>>,
    pub event_type: Option<Seq<char>>,
    pub stream: Option<Seq<char>>,
    pub session_key: Option<Seq<char>>,
    pub phase: Option<Seq<char>>,
    pub text: Option<Seq<char>>,
    pub state: Option<Seq<char>>,
    pub content: Seq<ContentItemModel>,
}

impl View for GatewayEvent {
    type V = GatewayEventModel;

    open spec fn view(&self) -> GatewayEventModel {
        GatewayEventModel {
            housekeeping: opt_view(self.housekeeping),
            event_type: opt_view(self.event_type),
            stream: opt_view(self.stream),
            session_key: opt_view(self.session_key),
            phase: opt_view(self.phase),
            text: opt_view(self.text),
            state: opt_view(self.state),
            content: items_view(self.content@),
        }
    }
}

/// What the translator decided for one event.
pub enum Translation {
    DropEvent,
    PassThrough,
    Emit(String),
}

/// Mathematical model of a translation decision.
pub enum TranslationModel {
    DropEvent,
    PassThrough,
    Emit(Seq<char>),
}

impl View for Translation {
    type V = TranslationModel;

    open spec fn view(&self) -> TranslationModel {
        match self {
            Translation::DropEvent => TranslationModel::DropEvent,
            Translation::PassThrough => TranslationModel::PassThrough,
            Translation::Emit(s) => TranslationModel::Emit(s@),
        }
    }
}

/// Event-housekeeping discriminators dropped before translation.
pub open spec fn is_housekeeping_spec(kind: Option<Seq<char>>) -> bool {
    match kind {
        Some(t) => t == "lifecycle"@ || t == "tick"@ || t == "presence"@ || t == "health"@,
        None => false,
    }
}

/// Accumulated text of a content array: every `text`-typed item's text,
/// concatenated in order; an item without its own type poisons the whole
/// event.
pub open spec fn accum_text_spec(items: Seq<ContentItemModel>) -> Option<Seq<char>>
    decreases items.len(),
{
    if items.len() == 0 {
        Some(Seq::empty())
    } else {
        match items[0].item_type {
            None => None,
            Some(t) => match accum_text_spec(items.drop_first()) {
                None => None,
                Some(rest) => if t == "text"@ {
                    match items[0].text {
                        Some(x) => Some(x + rest),
                        None => Some(rest),
                    }
                } else {
                    Some(rest)
                },
            },
        }
    }
}

/// The translation policy over one upstream event.
pub open spec fn translate_spec(ev: GatewayEventModel) -> TranslationModel {
    match ev.event_type {
        None => TranslationModel::DropEvent,
        Some(t) => if t == "agent"@ {
            match (ev.stream, ev.session_key) {
                (Some(stream), Some(sk)) => if stream == "lifecycle"@ {
                    match ev.phase {
                        Some(p) => if p == "end"@ || p == "complete"@ {
                            TranslationModel::Emit(frame_spec("complete"@, Seq::empty(), sk))
                        } else {
                            TranslationModel::DropEvent
                        },
                        None => TranslationModel::DropEvent,
                    }
                } else if stream == "assistant"@ {
                    match ev.text {
                        Some(x) => if x.len() > 0 {
                            TranslationModel::Emit(frame_spec("progress"@, x, sk))
                        } else {
                            TranslationModel::DropEvent
                        },
                        None => TranslationModel::DropEvent,
                    }
                } else {
                    TranslationModel::DropEvent
                },
                _ => TranslationModel::DropEvent,
            }
        } else if t == "chat"@ {
            match (ev.state, ev.session_key) {
                (Some(state), Some(sk)) => match accum_text_spec(ev.content) {
                    None => TranslationModel::DropEvent,
                    Some(txt) => if state == "final"@ {
                        TranslationModel::Emit(frame_spec("complete"@, txt, sk))
                    } else if state == "delta"@ {
                        if txt.len() > 0 {
                            TranslationModel::Emit(frame_spec("progress"@, txt, sk))
                        } else {
                            TranslationModel::DropEvent
                        }
                    } else if state == "error"@ {
                        TranslationModel::Emit(frame_spec("error"@, "An error occurred"@, sk))
                    } else {
                        TranslationModel::DropEvent
                    },
                },
                _ => TranslationModel::DropEvent,
            }
        } else {
            TranslationModel::PassThrough
        },
    }
}

/// What the upstream handler does with one decoded event: housekeeping is
/// dropped before translation is attempted at all.
pub open spec fn upstream_plan_spec(ev: GatewayEventModel) -> TranslationModel {
    if is_housekeeping_spec(ev.housekeeping) {
        TranslationModel::DropEvent
    } else {
        translate_spec(ev)
    }
}

/// Whether an event's housekeeping discriminator marks it for dropping.
pub fn is_housekeeping(kind: &Option<String>) -> (b: bool)
    ensures
        b == is_housekeeping_spec(opt_view(*kind)),
{
    match kind {
        Some(t) => str_eq(t.as_str(), "lifecycle") || str_eq(t.as_str(), "tick") || str_eq(
            t.as_str(),
            "presence",
        ) || str_eq(t.as_str(), "health"),
        None => false,
    }
}

/// Accumulates the text of a content array.
fn accumulate_text(items: &Vec<ContentItem>) -> (r: Option<String>)
    ensures
        match r {
            Some(s) => accum_text_spec(items_view(items@)) == Some(s@),
            None => accum_text_spec(items_view(items@)) is None,
        },
{
    let n = items.len();
    let mut out = String::new();
    let mut i: usize = 0;
    proof {
        assert(items_view(items@).subrange(0, n as int) =~= items_view(items@));
        assert(forall|rest: Seq<char>| out@ + rest =~= rest);
    }
    while i < n
        invariant
            n == items@.len(),
            0 <= i <= n,
            accum_text_spec(items_view(items@)) == (match accum_text_spec(
                items_view(items@).subrange(i as int, n as int),
            ) {
                Some(rest) => Some(out@ + rest),
                None => None::<Seq<char>>,
            }),
        decreases n - i,
    {
        let ghost pre = items_view(items@).subrange(i as int, n as int);
        let item = &items[i];
        proof {
            assert(pre[0] == items@[i as int]@);
            assert(pre.drop_first() =~= items_view(items@).subrange(i + 1 as int, n as int));
        }
        match &item.item_type {
            None => {
                return None;
            },
            Some(t) => {
                if str_eq(t.as_str(), "text") {
                    match &item.text {
                        Some(x) => {
                            let ghost old_out = out@;
                            out.append(x.as_str());
                            proof {
                                assert(forall|rest: Seq<char>| (old_out + (x@ + rest)) =~= (
                                old_out + x@) + rest);
                            }
                        },
                        None => {},
                    }
                }
            },
        }
        i += 1;
    }
    proof {
        assert(items_view(items@).subrange(n as int, n as int) =~= Seq::<ContentItemModel>::empty());
        assert(accum_text_spec(Seq::<ContentItemModel>::empty()) == Some(Seq::<char>::empty()));
        assert(out@ + Seq::<char>::empty() =~= out@);
    }
    Some(out)
}

/// Translates one upstream event into the canonical downstream form.
#[verifier::rlimit(100)]
#[verifier::spinoff_prover]
pub fn translate_event(ev: &GatewayEvent) -> (r: Translation)
    ensures
        r@ == translate_spec(ev@),
{
    let t = match &ev.event_type {
        Some(t) => t,
        None => {
            return Translation::DropEvent;
        },
    };
    if str_eq(t.as_str(), "agent") {
        let stream = match &ev.stream {
            Some(s) => s,
            None => {
                return Translation::DropEvent;
            },
        };
        let sk = match &ev.session_key {
            Some(s) => s,
            None => {
                return Translation::DropEvent;
            },
        };
        if str_eq(stream.as_str(), "lifecycle") {
            match &ev.phase {
                Some(p) => {
                    if str_eq(p.as_str(), "end") || str_eq(p.as_str(), "complete") {
                        proof {
                            reveal_strlit("");
                            assert(""@ =~= Seq::<char>::empty());
                        }
                        Translation::Emit(build_downstream_frame("complete", "", sk.as_str()))
                    } else {
                        Translation::DropEvent
                    }
                },
                None => Translation::DropEvent,
            }
        } else if str_eq(stream.as_str(), "assistant") {
            match &ev.text {
                Some(x) => {
                    if x.as_str().unicode_len() > 0 {
                        Translation::Emit(build_downstream_frame("progress", x.as_str(), sk.as_str()))
                    } else {
                        Translation::DropEvent
                    }
                },
                None => Translation::DropEvent,
            }
        } else {
            Translation::DropEvent
        }
    } else if str_eq(t.as_str(), "chat") {
        let state = match &ev.state {
            Some(s) => s,
            None => {
                return Translation::DropEvent;
            },
        };
        let sk = match &ev.session_key {
            Some(s) => s,
            None => {
                return Translation::DropEvent;
            },
        };
        let txt = match accumulate_text(&ev.content) {
            Some(x) => x,
            None => {
                return Translation::DropEvent;
            },
        };
        if str_eq(state.as_str(), "final") {
            Translation::Emit(build_downstream_frame("complete", txt.as_str(), sk.as_str()))
        } else if str_eq(state.as_str(), "delta") {
            if txt.as_str().unicode_len() > 0 {
                Translation::Emit(build_downstream_frame("progress", txt.as_str(), sk.as_str()))
            } else {
                Translation::DropEvent
            }
        } else if str_eq(state.as_str(), "error") {
            Translation::Emit(build_downstream_frame("error", "An error occurred", sk.as_str()))
        } else {
            Translation::DropEvent
        }
    } else {
        Translation::PassThrough
    }
}

/// Decides what to do with one decoded upstream event.
pub fn plan_upstream_event(ev: &GatewayEvent) -> (r: Translation)
    ensures
        r@ == upstream_plan_spec(ev@),
{
    if is_housekeeping(&ev.housekeeping) {
        Translation::DropEvent
    } else {
        translate_event(ev)
    }
}

} // verus!
