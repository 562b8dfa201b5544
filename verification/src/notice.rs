//! Short messages to the user.
use vstd::prelude::*;

verus! {

/// What a message is about, which decides its color.
#[derive(Debug, Clone, Copy, PartialEq, Eq, Structural)]
pub enum Tone {
    Success,
    Danger,
    Warning,
    Info,
}

/// A message and its tone.
#[derive(Debug)]
pub struct Notice {
    pub text: String,
    pub tone: Tone,
}

impl View for Notice {
    type V = (Seq<char>, Tone);

    open spec fn view(&self) -> (Seq<char>, Tone) {
        (self.text@, self.tone)
    }
}

/// The message that an optional notice shows.
pub open spec fn shown(notice: Option<Notice>) -> Option<(Seq<char>, Tone)> {
    match notice {
        Some(n) => Some(n@),
        None => None,
    }
}

/// A notice is its text and its tone.
pub proof fn notices_hold_text_and_tone(n: Notice, maybe: Option<Notice>)
    ensures
        n@ == (n.text@, n.tone),
        maybe is None <==> shown(maybe) is None,
        maybe matches Some(m) ==> shown(maybe) == Some((m.text@, m.tone)),
{
}

} // verus!
