//! The LLM client's pure half: assembling the chat transcript from a history
//! and picking the assistant's reply out of a response.
//!
//! The HTTP call itself is the shell's; it hands the choices back as plain
//! values.

use vstd::prelude::*;

verus! {

/// One earlier exchange of a chat.
pub struct History {
    pub user_input: String,
    pub ai_output: String,
}

/// Mathematical image of a [`History`].
pub struct HistoryV {
    pub user_input: Seq<char>,
    pub ai_output: Seq<char>,
}

impl View for History {
    type V = HistoryV;

    open spec fn view(&self) -> HistoryV {
        HistoryV { user_input: self.user_input@, ai_output: self.ai_output@ }
    }
}

impl DeepView for History {
    type V = HistoryV;

    open spec fn deep_view(&self) -> HistoryV {
        self.view()
    }
}

/// A chat participant.
#[derive(Clone, Copy, PartialEq, Eq, Structural, Debug)]
pub enum Role {
    User,
    Assistant,
    System,
}

/// One message of a chat transcript.
pub struct ChatMessage {
    pub role: Role,
    pub content: String,
}

/// Mathematical image of a [`ChatMessage`].
pub struct ChatMessageV {
    pub role: Role,
    pub content: Seq<char>,
}

impl View for ChatMessage {
    type V = ChatMessageV;

    open spec fn view(&self) -> ChatMessageV {
        ChatMessageV { role: self.role, content: self.content@ }
    }
}

impl DeepView for ChatMessage {
    type V = ChatMessageV;

    open spec fn deep_view(&self) -> ChatMessageV {
        self.view()
    }
}

/// The transcript of a history: one user and one assistant message per
/// exchange, in order.
pub open spec fn spec_history_messages(hs: Seq<HistoryV>) -> Seq<ChatMessageV>
    decreases hs.len(),
{
    if hs.len() == 0 {
        Seq::empty()
    } else {
        seq![
            ChatMessageV { role: Role::User, content: hs.first().user_input },
            ChatMessageV { role: Role::Assistant, content: hs.first().ai_output },
        ] + spec_history_messages(hs.drop_first())
    }
}

/// The transcript sent for a request: the history's exchanges, then the new
/// input as a user message.
pub open spec fn spec_messages(history: Option<Seq<HistoryV>>, input: Seq<char>) -> Seq<
    ChatMessageV,
> {
    (match history {
        Some(hs) => spec_history_messages(hs),
        None => Seq::empty(),
    }) + seq![ChatMessageV { role: Role::User, content: input }]
}

/// Assembles the transcript for a request.
pub fn build_messages(history: &Option<Vec<History>>, input: &String) -> (r: Vec<ChatMessage>)
    ensures
        r.deep_view() == spec_messages(
            match history {
                Some(hs) => Some(hs.deep_view()),
                None => None,
            },
            input@,
        ),
{
    let mut out: Vec<ChatMessage> = Vec::new();
    proof {
        assert(out.deep_view() =~~= Seq::<ChatMessageV>::empty());
    }
    match history {
        Some(hs) => {
            let ghost hv = hs.deep_view();
            proof {
                assert(hv.skip(0) =~= hv);
            }
            for i in 0..hs.len()
                invariant
                    hv == hs.deep_view(),
                    hv.len() == hs@.len(),
                    spec_history_messages(hv) == out.deep_view() + spec_history_messages(
                        hv.skip(i as int),
                    ),
            {
                proof {
                    assert(hv.skip(i as int).first() == hv[i as int]);
                    assert(hv.skip(i as int).drop_first() =~= hv.skip(i as int + 1));
                    assert(hv[i as int] == hs@[i as int]@);
                }
                let ghost prev = out.deep_view();
                out.push(ChatMessage { role: Role::User, content: hs[i].user_input.clone() });
                out.push(ChatMessage { role: Role::Assistant, content: hs[i].ai_output.clone() });
                proof {
                    assert(out.deep_view() =~~= prev + seq![
                        out@[out@.len() - 2].deep_view(),
                        out@[out@.len() - 1].deep_view(),
                    ]);
                }
            }
            proof {
                assert(hv.skip(hv.len() as int) =~= Seq::<HistoryV>::empty());
            }
        },
        None => {},
    }
    let ghost prev = out.deep_view();
    out.push(ChatMessage { role: Role::User, content: input.clone() });
    proof {
        assert(out.deep_view() =~~= prev + seq![out@.last().deep_view()]);
    }
    out
}

/// One choice of a chat response, as the shell hands it back.
pub struct ChatChoice {
    pub role: Role,
    pub content: Option<String>,
}

/// Mathematical image of a [`ChatChoice`].
pub struct ChatChoiceV {
    pub role: Role,
    pub content: Option<Seq<char>>,
}

impl View for ChatChoice {
    type V = ChatChoiceV;

    open spec fn view(&self) -> ChatChoiceV {
        ChatChoiceV {
            role: self.role,
            content: match self.content {
                Some(c) => Some(c@),
                None => None,
            },
        }
    }
}

impl DeepView for ChatChoice {
    type V = ChatChoiceV;

    open spec fn deep_view(&self) -> ChatChoiceV {
        self.view()
    }
}

/// The reply a response denotes: the content of the first assistant choice,
/// or the empty string when that choice has no content or no assistant choice
/// exists.
pub open spec fn spec_assistant_content(choices: Seq<ChatChoiceV>) -> Seq<char>
    decreases choices.len(),
{
    if choices.len() == 0 {
        Seq::empty()
    } else if choices.first().role == Role::Assistant {
        match choices.first().content {
            Some(c) => c,
            None => Seq::empty(),
        }
    } else {
        spec_assistant_content(choices.drop_first())
    }
}

/// Picks the assistant's reply out of a response's choices.
pub fn select_assistant_content(choices: &Vec<ChatChoice>) -> (r: String)
    ensures
        r@ == spec_assistant_content(choices.deep_view()),
{
    let ghost cv = choices.deep_view();
    proof {
        assert(cv.skip(0) =~= cv);
    }
    for i in 0..choices.len()
        invariant
            cv == choices.deep_view(),
            cv.len() == choices@.len(),
            spec_assistant_content(cv) == spec_assistant_content(cv.skip(i as int)),
    {
        proof {
            assert(cv.skip(i as int).first() == cv[i as int]);
            assert(cv.skip(i as int).drop_first() =~= cv.skip(i as int + 1));
        }
        match choices[i].role {
            Role::Assistant => {
                match &choices[i].content {
                    Some(c) => {
                        return c.clone();
                    },
                    None => {
                        return String::new();
                    },
                }
            },
            _ => {},
        }
    }
    proof {
        assert(cv.skip(cv.len() as int) =~= Seq::<ChatChoiceV>::empty());
    }
    String::new()
}

} // verus!
