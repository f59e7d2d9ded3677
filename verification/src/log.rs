//! The activity log: every line is kept in memory, for the developer page,
//! and queued for the log file until the file writer takes it.

use vstd::prelude::*;
use vstd::string::*;

use crate::text::join;

verus! {

/// Size in bytes above which an existing log file is started afresh.
pub const LOG_FILE_LIMIT: u64 = 1048576;

/// The line that `Plog::info` writes for `msg`.
pub open spec fn info_line(msg: Seq<char>) -> Seq<char> {
    "[INFO]:"@ + msg + "\n"@
}

/// The line that `Plog::warn` writes for `msg`.
pub open spec fn warn_line(msg: Seq<char>) -> Seq<char> {
    "[WARN]:"@ + msg + "\n"@
}

/// The line that `Plog::error` writes for `msg`.
pub open spec fn error_line(msg: Seq<char>) -> Seq<char> {
    "[ERR]:"@ + msg + "\n"@
}

/// Each kind of line is its tag, the whole message, and a line feed.
pub proof fn lemma_log_lines(msg: Seq<char>)
    ensures
        info_line(msg) == seq!['[', 'I', 'N', 'F', 'O', ']', ':'] + msg + seq!['\n'],
        warn_line(msg) == seq!['[', 'W', 'A', 'R', 'N', ']', ':'] + msg + seq!['\n'],
        error_line(msg) == seq!['[', 'E', 'R', 'R', ']', ':'] + msg + seq!['\n'],
{
    reveal_strlit("[INFO]:");
    reveal_strlit("[WARN]:");
    reveal_strlit("[ERR]:");
    reveal_strlit("\n");
    assert("[INFO]:"@ =~= seq!['[', 'I', 'N', 'F', 'O', ']', ':']);
    assert("[WARN]:"@ =~= seq!['[', 'W', 'A', 'R', 'N', ']', ':']);
    assert("[ERR]:"@ =~= seq!['[', 'E', 'R', 'R', ']', ':']);
    assert("\n"@ =~= seq!['\n']);
}

/// The log: the text of every line written so far, and the part of it that
/// has not yet been handed to the log file.
pub struct Plog {
    log_context: String,
    unflushed: String,
    flushed: Ghost<Seq<char>>,
}

impl Plog {
    /// Everything written to the log so far.
    pub closed spec fn log_text(&self) -> Seq<char> {
        self.log_context@
    }

    /// The lines written but not yet handed out for the log file.
    pub closed spec fn pending(&self) -> Seq<char> {
        self.unflushed@
    }

    /// The lines already handed out for the log file.
    pub closed spec fn flushed(&self) -> Seq<char> {
        self.flushed@
    }

    /// `after` is `before` with `text` written: added to the log and to the
    /// pending lines, nothing more handed out.
    pub open spec fn appended(before: Plog, after: Plog, text: Seq<char>) -> bool {
        &&& after.log_text() == before.log_text() + text
        &&& after.pending() == before.pending() + text
        &&& after.flushed() == before.flushed()
    }

    /// What has been handed out, followed by what is pending, is the whole log.
    #[verifier::type_invariant]
    spec fn handed_out_then_pending(&self) -> bool {
        self.log_context@ == self.flushed@ + self.unflushed@
    }

    /// An empty log.
    pub fn new() -> (r: Plog)
        ensures
            r.log_text() == Seq::<char>::empty(),
            r.pending() == Seq::<char>::empty(),
            r.flushed() == Seq::<char>::empty(),
    {
        let r = Plog { log_context: String::new(), unflushed: String::new(), flushed: Ghost(Seq::empty()) };
        assert(r.log_context@ =~= r.flushed@ + r.unflushed@);
        r
    }

    /// Whether a log file of `file_len` bytes is to be started afresh
    /// rather than appended to.
    pub fn should_truncate(file_len: u64) -> (r: bool)
        ensures
            r == (file_len > LOG_FILE_LIMIT),
    {
        file_len > LOG_FILE_LIMIT
    }

    /// Appends `msg` and a line feed to the log.
    pub fn write(&mut self, msg: String)
        ensures
            Plog::appended(*old(self), *final(self), msg@ + "\n"@),
            final(self).log_text() == final(self).flushed() + final(self).pending(),
    {
        proof {
            use_type_invariant(&*self);
        }
        let line = msg.concat("\n");
        let ctx = self.log_context.clone().concat(line.as_str());
        let un = self.unflushed.clone().concat(line.as_str());
        let ghost fl = self.flushed@;
        assert(ctx@ =~= fl + un@);
        *self = Plog { log_context: ctx, unflushed: un, flushed: Ghost(fl) };
    }

    /// The whole text of the log.
    pub fn all_log(&self) -> (r: String)
        ensures
            r@ == self.log_text(),
    {
        self.log_context.clone()
    }

    /// Writes `msg` as an information line.
    pub fn info(&mut self, msg: String)
        ensures
            Plog::appended(*old(self), *final(self), info_line(msg@)),
            final(self).log_text() == final(self).flushed() + final(self).pending(),
    {
        let line = join("[INFO]:", msg.as_str());
        self.write(line);
        assert(self.log_text() =~= old(self).log_text() + info_line(msg@));
        assert(self.pending() =~= old(self).pending() + info_line(msg@));
    }

    /// Writes `msg` as a warning line.
    pub fn warn(&mut self, msg: String)
        ensures
            Plog::appended(*old(self), *final(self), warn_line(msg@)),
            final(self).log_text() == final(self).flushed() + final(self).pending(),
    {
        let line = join("[WARN]:", msg.as_str());
        self.write(line);
        assert(self.log_text() =~= old(self).log_text() + warn_line(msg@));
        assert(self.pending() =~= old(self).pending() + warn_line(msg@));
    }

    /// Writes `msg` as an error line.
    pub fn error(&mut self, msg: String)
        ensures
            Plog::appended(*old(self), *final(self), error_line(msg@)),
            final(self).log_text() == final(self).flushed() + final(self).pending(),
    {
        let line = join("[ERR]:", msg.as_str());
        self.write(line);
        assert(self.log_text() =~= old(self).log_text() + error_line(msg@));
        assert(self.pending() =~= old(self).pending() + error_line(msg@));
    }

    /// Hands out the lines not yet written to the log file; they count as
    /// written from now on.
    pub fn take_unflushed(&mut self) -> (r: String)
        ensures
            r@ == old(self).pending(),
            final(self).pending() == Seq::<char>::empty(),
            final(self).log_text() == old(self).log_text(),
            final(self).flushed() == old(self).flushed() + r@,
            final(self).log_text() == final(self).flushed() + final(self).pending(),
    {
        proof {
            use_type_invariant(&*self);
        }
        let r = self.unflushed.clone();
        let ctx = self.log_context.clone();
        let ghost fl = self.flushed@ + r@;
        assert(ctx@ =~= fl + Seq::<char>::empty());
        *self = Plog { log_context: ctx, unflushed: String::new(), flushed: Ghost(fl) };
        r
    }
}

} // verus!
