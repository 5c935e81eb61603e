//! Sources of input strings and destinations of output strings, as far as
//! their bookkeeping goes; reading and writing happen around the library.
use vstd::prelude::*;
use std::collections::VecDeque;
use crate::text::same_text;

verus! {

/// A source or destination that could not deliver.
#[derive(Clone, Copy, Debug, PartialEq, Eq, Structural)]
pub enum ContentError {
    /// A provider was asked for more strings than it holds.
    NoMoreData,
}

impl ContentError {
    /// The message that describes this error.
    pub fn message(&self) -> (r: String)
        ensures
            r@ == "No more data."@,
    {
        "No more data.".to_owned()
    }
}

/// A provider of the strings given on the command line, in order.
pub struct StringProvider {
    data: VecDeque<String>,
}

impl StringProvider {
    /// The strings not handed out yet.
    pub closed spec fn remaining(&self) -> Seq<String> {
        self.data@
    }

    pub fn new(data: Vec<String>) -> (r: Self)
        ensures
            r.remaining() == data@,
    {
        let ghost all = data@;
        let mut data = data;
        let mut queue: VecDeque<String> = VecDeque::new();
        while data.len() > 0
            invariant
                data@.len() <= all.len(),
                data@ == all.subrange(0, data@.len() as int),
                queue@ == all.subrange(data@.len() as int, all.len() as int),
            decreases data@.len(),
        {
            let ghost n = data@.len();
            match data.pop() {
                Some(s) => {
                    queue.push_front(s);
                    proof {
                        assert(queue@ =~= all.subrange(n - 1, all.len() as int));
                        assert(data@ =~= all.subrange(0, n - 1));
                    }
                },
                None => {},
            }
        }
        proof {
            assert(all.subrange(0, all.len() as int) =~= all);
        }
        StringProvider { data: queue }
    }

    /// Hands out the next string.
    pub fn provide(&mut self) -> (r: Result<String, ContentError>)
        ensures
            old(self).remaining().len() == 0 ==> r == Err::<String, ContentError>(
                ContentError::NoMoreData,
            ) && final(self).remaining() == old(self).remaining(),
            old(self).remaining().len() > 0 ==> r == Ok::<String, ContentError>(
                old(self).remaining()[0],
            ) && final(self).remaining() == old(self).remaining().drop_first(),
    {
        match self.data.pop_front() {
            Some(s) => {
                proof {
                    assert(self.data@ =~= old(self).data@.drop_first());
                }
                Ok(s)
            },
            None => Err(ContentError::NoMoreData),
        }
    }

    /// Whether strings remain.
    pub fn has_more(&mut self) -> (r: Result<bool, ContentError>)
        ensures
            r == Ok::<bool, ContentError>(old(self).remaining().len() > 0),
            final(self).remaining() == old(self).remaining(),
    {
        Ok(self.data.len() > 0)
    }
}

/// A consumer that discards what it is given.
pub struct NullConsumer {}

impl NullConsumer {
    pub fn new() -> Self {
        NullConsumer {  }
    }

    pub fn consume(&mut self, text: String) -> (r: Result<(), ContentError>)
        ensures
            r is Ok,
    {
        Ok(())
    }
}

/// The state of a provider that reads standard input: a line read ahead
/// while checking for more input, which belongs to the next string.
pub struct StdinProvider {
    buffer: Option<String>,
}

impl StdinProvider {
    /// The text read ahead and not handed out yet.
    pub closed spec fn read_ahead(&self) -> Seq<char> {
        match self.buffer {
            Some(b) => b@,
            None => Seq::empty(),
        }
    }

    pub fn new() -> (r: Self)
        ensures
            r.read_ahead() == Seq::<char>::empty(),
    {
        StdinProvider { buffer: None }
    }

    /// Takes the text read ahead; what is read next is appended to it.
    pub fn take_buffer(&mut self) -> (r: String)
        ensures
            r@ == old(self).read_ahead(),
            final(self).read_ahead() == Seq::<char>::empty(),
    {
        match self.buffer.take() {
            Some(b) => b,
            None => String::new(),
        }
    }

    /// Keeps `text`, read ahead, for the next string.
    pub fn keep_buffer(&mut self, text: String)
        ensures
            final(self).read_ahead() == text@,
    {
        self.buffer = Some(text);
    }
}

/// The state shared by the clipboard provider and consumer: the clipboard
/// text that does not count as a change.
pub struct ClipboardSingleton {
    ignore: String,
}

impl ClipboardSingleton {
    /// The clipboard text that does not count as new input.
    pub closed spec fn ignored(&self) -> Seq<char> {
        self.ignore@
    }

    pub fn new() -> (r: Self)
        ensures
            r.ignored() == Seq::<char>::empty(),
    {
        ClipboardSingleton { ignore: String::new() }
    }

    /// Records what the clipboard holds after this program wrote to it, so
    /// that its own output is not taken for new input.
    pub fn set_data(&mut self, read_back: String)
        ensures
            final(self).ignored() == read_back@,
    {
        self.ignore = read_back;
    }

    /// Records the clipboard text that was just read as input, and hands it on.
    pub fn get_data(&mut self, data: String) -> (r: String)
        ensures
            r == data,
            final(self).ignored() == data@,
    {
        self.ignore = data.clone();
        data
    }

    /// Whether the clipboard text `data` differs from the recorded text.
    pub fn has_changed(&self, data: &String) -> (r: bool)
        ensures
            r == (data@ != self.ignored()),
    {
        !(*data == self.ignore)
    }
}

/// How many more times a failing read may be attempted.
pub struct Attempts {
    left: usize,
}

impl Attempts {
    /// The attempts not made yet.
    pub closed spec fn left(&self) -> nat {
        self.left as nat
    }

    /// One attempt plus `retries` more (as many as a `usize` counts).
    pub fn new(retries: usize) -> (r: Self)
        ensures
            r.left() == if retries < usize::MAX {
                retries + 1
            } else {
                retries as int
            },
    {
        Attempts { left: if retries < usize::MAX { retries + 1 } else { retries } }
    }

    /// Uses up one attempt; false when none is left.
    pub fn next(&mut self) -> (r: bool)
        ensures
            r == (old(self).left() > 0),
            r ==> final(self).left() == old(self).left() - 1,
            !r ==> final(self).left() == 0,
    {
        if self.left > 0 {
            self.left = self.left - 1;
            true
        } else {
            false
        }
    }
}

/// A provider that reads the clipboard.
pub struct ClipboardProvider {}

impl ClipboardProvider {
    pub fn new() -> Self {
        ClipboardProvider {  }
    }
}

/// A consumer that writes to the clipboard.
pub struct ClipboardConsumer {}

impl ClipboardConsumer {
    pub fn new() -> Self {
        ClipboardConsumer {  }
    }
}

/// Where input strings come from.
#[derive(Clone, Copy, Debug, PartialEq, Eq, Structural)]
pub enum InputSource {
    Stdin,
    Clipboard,
    Arguments,
}

/// Where output strings go.
#[derive(Clone, Copy, Debug, PartialEq, Eq, Structural)]
pub enum OutputTarget {
    Stdout,
    Null,
    Clipboard,
}

/// The input source called `name` on the command line.
pub fn input_source(name: &str) -> (r: Option<InputSource>)
    ensures
        r == Some(InputSource::Stdin) <==> name@ == "stdin"@,
        r == Some(InputSource::Clipboard) <==> name@ == "clipboard"@,
        r == Some(InputSource::Arguments) <==> (name@ == "args"@ || name@ == "arguments"@),
{
    proof {
        reveal_strlit("stdin");
        reveal_strlit("clipboard");
        reveal_strlit("args");
        reveal_strlit("arguments");
        assert("stdin"@.len() != "clipboard"@.len() && "stdin"@.len() != "args"@.len());
        assert("stdin"@.len() != "arguments"@.len() && "clipboard"@.len() != "args"@.len());
        assert("clipboard"@[0] != "arguments"@[0]);
    }
    if same_text(name, "stdin") {
        Some(InputSource::Stdin)
    } else if same_text(name, "clipboard") {
        Some(InputSource::Clipboard)
    } else if same_text(name, "args") || same_text(name, "arguments") {
        Some(InputSource::Arguments)
    } else {
        None
    }
}

/// The output target called `name` on the command line.
pub fn output_target(name: &str) -> (r: Option<OutputTarget>)
    ensures
        r == Some(OutputTarget::Stdout) <==> name@ == "stdout"@,
        r == Some(OutputTarget::Null) <==> name@ == "null"@,
        r == Some(OutputTarget::Clipboard) <==> name@ == "clipboard"@,
{
    proof {
        reveal_strlit("stdout");
        reveal_strlit("null");
        reveal_strlit("clipboard");
        assert("stdout"@.len() != "null"@.len() && "stdout"@.len() != "clipboard"@.len());
        assert("null"@.len() != "clipboard"@.len());
    }
    if same_text(name, "stdout") {
        Some(OutputTarget::Stdout)
    } else if same_text(name, "null") {
        Some(OutputTarget::Null)
    } else if same_text(name, "clipboard") {
        Some(OutputTarget::Clipboard)
    } else {
        None
    }
}

/// What the main loop does after handing on one string.
#[derive(Clone, Copy, Debug, PartialEq, Eq, Structural)]
pub enum LoopStep {
    /// Read and process the next string.
    Continue,
    /// Wait a moment, then ask the provider again.
    Poll,
    /// Finish.
    Stop,
}

/// The next step, given whether the provider has more input and whether the
/// program watches for changes.
pub fn next_step(more: bool, watch: bool) -> (r: LoopStep)
    ensures
        more ==> r == LoopStep::Continue,
        !more && watch ==> r == LoopStep::Poll,
        !more && !watch ==> r == LoopStep::Stop,
{
    if more {
        LoopStep::Continue
    } else if watch {
        LoopStep::Poll
    } else {
        LoopStep::Stop
    }
}

} // verus!
