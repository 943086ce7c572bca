//! The program around the evaluator, and the record of what passes between
//! the two.

use vstd::prelude::*;

verus! {

/// What the evaluator asks of the program around it.
pub trait Host {
    /// The text of the file at `path`, or why it cannot be had.
    fn read_text(&mut self, path: &str) -> Result<String, String>;

    /// Shows one line of text.
    fn write_line(&mut self, line: &str);
}

/// One exchange with the host.
pub enum Event {
    /// The host was asked for the file at a path and gave this answer.
    Read(Seq<char>, Result<Seq<char>, Seq<char>>),
    /// The host was handed this line.
    Write(Seq<char>),
}

/// The mathematical value of an answer of the host.
pub open spec fn answer_view(answer: Result<String, String>) -> Result<Seq<char>, Seq<char>> {
    match answer {
        Ok(text) => Ok(text@),
        Err(reason) => Err(reason@),
    }
}

/// A host together with the record of every exchange with it, in order.
/// The record exists for proofs alone and costs nothing when the program runs.
pub struct Session<H> {
    pub host: H,
    pub log: Ghost<Seq<Event>>,
}

impl<H> View for Session<H> {
    type V = Seq<Event>;

    open spec fn view(&self) -> Seq<Event> {
        self.log@
    }
}

impl<H: Host> Session<H> {
    /// A session with an empty record.
    pub fn new(host: H) -> (session: Self)
        ensures
            session@ == Seq::<Event>::empty(),
            session.host == host,
    {
        Session { host, log: Ghost(Seq::empty()) }
    }

    /// Asks the host for a file and records the answer, whatever it is.
    pub fn read_text(&mut self, path: &str) -> (answer: Result<String, String>)
        ensures
            final(self)@ == old(self)@.push(Event::Read(path@, answer_view(answer))),
    {
        let answer = self.host.read_text(path);
        self.log = Ghost(self.log@.push(Event::Read(path@, answer_view(answer))));
        answer
    }

    /// Hands the host a line and records it.
    pub fn write_line(&mut self, line: &str)
        ensures
            final(self)@ == old(self)@.push(Event::Write(line@)),
    {
        self.host.write_line(line);
        self.log = Ghost(self.log@.push(Event::Write(line@)));
    }
}

/// Being the beginning of a sequence passes on: the beginning of a
/// beginning is a beginning.
pub proof fn lemma_prefix_of_prefix<T>(a: Seq<T>, b: Seq<T>, c: Seq<T>)
    requires
        a.is_prefix_of(b),
        b.is_prefix_of(c),
    ensures
        a.is_prefix_of(c),
{
    assert(a =~= c.subrange(0, a.len() as int)) by {
        assert(a =~= b.subrange(0, a.len() as int));
        assert(b =~= c.subrange(0, b.len() as int));
    }
}

/// A sequence is the beginning of itself with one more item.
pub proof fn lemma_prefix_of_push<T>(a: Seq<T>, x: T)
    ensures
        a.is_prefix_of(a.push(x)),
        a.is_prefix_of(a),
{
    assert(a =~= a.push(x).subrange(0, a.len() as int));
    assert(a =~= a.subrange(0, a.len() as int));
}

} // verus!
