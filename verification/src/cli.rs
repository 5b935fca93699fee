//! The subcommands of the command line, as plain values.
use vstd::prelude::*;
use crate::address::BluetoothAddress;
use crate::storage::SpanBoundary;
use crate::text::{from_chars, join, push_str};

verus! {

/// `battery ...`
#[derive(Debug)]
pub enum BatteryCommands {
    /// Record a battery percentage (0 to 100).
    SetPercentage { address: Option<BluetoothAddress>, percentage: u8 },
}

/// `note ...`
#[derive(Debug)]
pub enum NoteCommands {
    /// Add a note to the start of a span.
    Start { address: Option<BluetoothAddress>, text: Vec<String> },
    /// Add a note to the end of a span.
    End { address: Option<BluetoothAddress>, text: Vec<String> },
}

/// `service ...`
#[derive(Debug)]
pub enum ServiceCommands {
    /// Install and start the tracker service.
    Install { address: Vec<BluetoothAddress> },
    /// Stop and remove the tracker service.
    Uninstall,
}

pub open spec fn words_view(v: Seq<String>) -> Seq<Seq<char>> {
    v.map_values(|s: String| s@)
}

/// The words of a note, joined by single spaces.
pub fn join_words(words: &Vec<String>) -> (r: String)
    ensures
        r@ == join(words_view(words@), " "@),
{
    proof {
        reveal_strlit(" ");
    }
    let ghost views = words_view(words@);
    let mut out: Vec<char> = Vec::new();
    let n = words.len();
    let mut i: usize = 0;
    while i < n
        invariant
            i <= n,
            n == words@.len(),
            views == words_view(words@),
            out@ == join(views.take(i as int), " "@),
        decreases n - i,
    {
        proof {
            let t = views.take(i + 1);
            assert(t.drop_last() =~= views.take(i as int));
            assert(t.last() == words@[i as int]@);
            if i == 0 {
                assert(t.len() == 1 && t[0] == words@[0]@);
            }
        }
        if i > 0 {
            push_str(&mut out, " ");
        }
        push_str(&mut out, words[i].as_str());
        i = i + 1;
    }
    assert(views.take(n as int) =~= views);
    from_chars(out.as_slice())
}

impl NoteCommands {
    pub open spec fn spec_boundary(&self) -> SpanBoundary {
        match self {
            NoteCommands::Start { .. } => SpanBoundary::Start,
            NoteCommands::End { .. } => SpanBoundary::End,
        }
    }

    /// Which end of the span the note is for.
    pub fn boundary(&self) -> (r: SpanBoundary)
        ensures
            r == self.spec_boundary(),
    {
        match self {
            NoteCommands::Start { .. } => SpanBoundary::Start,
            NoteCommands::End { .. } => SpanBoundary::End,
        }
    }

    /// The device the note is for, if one was named.
    pub fn address(&self) -> (r: Option<&BluetoothAddress>)
        ensures
            r == match self {
                NoteCommands::Start { address, .. } => match address {
                    Some(a) => Some(a),
                    None => None,
                },
                NoteCommands::End { address, .. } => match address {
                    Some(a) => Some(a),
                    None => None,
                },
            },
    {
        match self {
            NoteCommands::Start { address, .. } => match address {
                Some(a) => Some(a),
                None => None,
            },
            NoteCommands::End { address, .. } => match address {
                Some(a) => Some(a),
                None => None,
            },
        }
    }

    /// The words given on the command line, joined by single spaces.
    pub fn text(&self) -> (r: String)
        ensures
            r@ == join(
                words_view(
                    match self {
                        NoteCommands::Start { text, .. } => text@,
                        NoteCommands::End { text, .. } => text@,
                    },
                ),
                " "@,
            ),
    {
        match self {
            NoteCommands::Start { text, .. } => join_words(text),
            NoteCommands::End { text, .. } => join_words(text),
        }
    }
}

} // verus!
