//! The process handles and the multiplexer's per-cycle decisions.
//!
//! A `CommandCtx` tracks one launched command: its pending bytes, its
//! compiled filter, its color and whether it is still polled. Each cycle the
//! caller hands every live handle the bytes it managed to read without
//! blocking and what a non-blocking liveness probe reported; the handle
//! answers with the exact console bytes to write.

use vstd::prelude::*;

use crate::color::{parse_color, spec_parse_color, Color};
use crate::filter::{compile_filter, filter_view, pattern_compiles};
use crate::lines::line_rest;
use crate::render::{emit_buffer, spec_emit};

verus! {

/// One command to launch and watch, as the configuration declares it.
#[derive(Clone, Debug)]
pub struct Command {
    /// The executable to run, resolved via the process search path.
    pub bin: String,
    /// The arguments handed verbatim to the executable.
    pub args: Vec<String>,
    /// The name of the color its output lines are rendered in.
    pub out_color: String,
    /// An optional regular expression; when present, only matching lines are
    /// shown.
    pub filter: Option<String>,
    /// Whether the multiplexer must watch for this process's termination.
    pub follow: bool,
}

/// Why a command specification was rejected before anything was launched.
#[derive(Clone, Copy, PartialEq, Eq, Structural, Debug)]
pub enum ConfigError {
    /// `out_color` names no color of the palette.
    InvalidColor,
    /// `filter` is not a valid regular expression.
    InvalidFilter,
}

/// What a non-blocking liveness probe reported of a child process.
#[derive(Clone, Copy, PartialEq, Eq, Structural, Debug)]
pub enum ProcessStatus {
    /// The process is still running (or has not changed state).
    Running,
    /// The process exited.
    Exited,
    /// The process was ended by a signal.
    Signaled,
    /// The process was stopped.
    Stopped,
}

/// The mathematical state of one handle.
#[verifier::ext_equal]
pub struct CtxView {
    /// Bytes read but not yet resolved into complete lines.
    pub shelf: Seq<u8>,
    /// The filter pattern, when one was configured.
    pub filter: Option<Seq<char>>,
    /// The color of this handle's lines.
    pub color: Color,
    /// Whether termination of this handle's process is watched.
    pub follow: bool,
    /// Whether this handle is still polled.
    pub alive: bool,
}

/// The in-process record tracking one launched command.
pub struct CommandCtx {
    command: Command,
    color: Color,
    regex: Option<regex::bytes::Regex>,
    shelf: Vec<u8>,
    alive: bool,
}

impl View for CommandCtx {
    type V = CtxView;

    closed spec fn view(&self) -> CtxView {
        CtxView {
            shelf: self.shelf@,
            filter: filter_view(self.regex),
            color: self.color,
            follow: self.command.follow,
            alive: self.alive,
        }
    }
}

/// Whether a command specification is acceptable: its color is of the
/// palette and its filter, if any, compiles.
pub open spec fn spec_valid_command(out_color: Seq<char>, filter: Option<Seq<char>>) -> bool {
    spec_parse_color(out_color) is Some && match filter {
        None => true,
        Some(p) => pattern_compiles(p),
    }
}

/// The console bytes one handle contributes in one cycle, given the bytes
/// read for it: nothing when retired, else its buffered complete lines that
/// pass the filter, rendered in its color.
pub open spec fn spec_step_out(m: CtxView, chunk: Seq<u8>) -> Seq<u8> {
    if m.alive {
        spec_emit(m.color, m.filter, m.shelf + chunk)
    } else {
        Seq::empty()
    }
}

/// The handle's state after one cycle: the shelf keeps exactly the trailing
/// unterminated fragment, and a followed handle whose process was seen to
/// end is retired.
pub open spec fn spec_step_view(m: CtxView, chunk: Seq<u8>, status: ProcessStatus) -> CtxView {
    if m.alive {
        CtxView {
            shelf: line_rest(m.shelf + chunk),
            filter: m.filter,
            color: m.color,
            follow: m.follow,
            alive: !(m.follow && status != ProcessStatus::Running),
        }
    } else {
        m
    }
}

impl CommandCtx {
    /// Validates a command specification and builds its handle: the color
    /// name is parsed and the filter compiled, both before anything is
    /// launched. Succeeds exactly on valid specifications.
    pub fn build(command: Command) -> (r: Result<CommandCtx, ConfigError>)
        ensures
            r is Ok <==> spec_valid_command(
                command.out_color@,
                match command.filter {
                    None => None,
                    Some(p) => Some(p@),
                },
            ),
            r matches Ok(ctx) ==> ctx@ == (CtxView {
                shelf: Seq::<u8>::empty(),
                filter: match command.filter {
                    None => None,
                    Some(p) => Some(p@),
                },
                color: spec_parse_color(command.out_color@)->0,
                follow: command.follow,
                alive: true,
            }),
            r matches Err(e) ==> (e == ConfigError::InvalidColor <==> spec_parse_color(
                command.out_color@,
            ) is None),
    {
        let color = match parse_color(command.out_color.as_str()) {
            Some(c) => c,
            None => {
                return Err(ConfigError::InvalidColor);
            },
        };
        let regex = match &command.filter {
            None => None,
            Some(p) => {
                match compile_filter(p.as_str()) {
                    Some(re) => Some(re),
                    None => {
                        return Err(ConfigError::InvalidFilter);
                    },
                }
            },
        };
        Ok(CommandCtx { command, color, regex, shelf: Vec::new(), alive: true })
    }

    /// Whether this handle is still to be polled.
    pub fn is_alive(&self) -> (r: bool)
        ensures
            r == self@.alive,
    {
        self.alive
    }

    /// The name of the executable this handle watches.
    pub fn bin(&self) -> (r: &String)
        ensures
            r@ == self.spec_bin(),
    {
        &self.command.bin
    }

    /// The configured executable name, for diagnostics.
    pub closed spec fn spec_bin(&self) -> Seq<char> {
        self.command.bin@
    }

    /// One multiplexer cycle for this handle: absorb the bytes read this
    /// cycle, emit the rendered complete lines that pass the filter, keep
    /// the trailing fragment, and retire the handle when its followed
    /// process was seen to end.
    pub fn step(&mut self, chunk: &[u8], status: ProcessStatus) -> (out: Vec<u8>)
        ensures
            out@ == spec_step_out(old(self)@, chunk@),
            final(self)@ == spec_step_view(old(self)@, chunk@, status),
    {
        if !self.alive {
            let out: Vec<u8> = Vec::new();
            proof {
                assert(self@ =~= spec_step_view(old(self)@, chunk@, status));
            }
            return out;
        }
        self.shelf.extend_from_slice(chunk);
        proof {
            assert(self.shelf@ == old(self)@.shelf + chunk@);
        }
        let (out, rest) = emit_buffer(self.color, &self.regex, &self.shelf);
        self.shelf = rest;
        if self.command.follow && !(status == ProcessStatus::Running) {
            self.alive = false;
        }
        proof {
            assert(self@ =~= spec_step_view(old(self)@, chunk@, status));
        }
        out
    }
}

/// The views of a sequence of handles.
pub open spec fn views_of(ctxs: Seq<CommandCtx>) -> Seq<CtxView> {
    ctxs.map_values(|c: CommandCtx| c@)
}

/// The console bytes of one whole cycle: each handle's contribution, in the
/// fixed order the handles were supplied, never by arrival time.
pub open spec fn spec_cycle_out(ms: Seq<CtxView>, chunks: Seq<Seq<u8>>) -> Seq<u8>
    decreases ms.len(),
{
    if ms.len() == 0 {
        Seq::empty()
    } else {
        spec_cycle_out(ms.drop_last(), chunks.drop_last()) + spec_step_out(
            ms.last(),
            chunks.last(),
        )
    }
}

/// One full multiplexer cycle over all handles: drains each handle in the
/// supplied order and concatenates their console bytes in that same order.
pub fn process_cycle(
    ctxs: Vec<CommandCtx>,
    chunks: &Vec<Vec<u8>>,
    statuses: &Vec<ProcessStatus>,
) -> (r: (Vec<CommandCtx>, Vec<u8>))
    requires
        chunks@.len() == ctxs@.len(),
        statuses@.len() == ctxs@.len(),
    ensures
        r.0@.len() == ctxs@.len(),
        forall|i: int|
            0 <= i < ctxs@.len() ==> r.0@[i]@ == spec_step_view(
                ctxs@[i]@,
                chunks@[i]@,
                statuses@[i],
            ),
        r.1@ == spec_cycle_out(views_of(ctxs@), chunks@.map_values(|v: Vec<u8>| v@)),
{
    let ghost orig = ctxs@;
    let ghost cviews = chunks@.map_values(|v: Vec<u8>| v@);
    let mut rest = ctxs;
    let mut done: Vec<CommandCtx> = Vec::new();
    let mut out: Vec<u8> = Vec::new();
    let n = chunks.len();
    proof {
        assert(views_of(orig).take(0) =~= Seq::<CtxView>::empty());
        assert(out@ =~= spec_cycle_out(views_of(orig).take(0), cviews.take(0)));
    }
    let mut i: usize = 0;
    while i < n
        invariant
            n == orig.len(),
            n == chunks@.len(),
            n == statuses@.len(),
            i <= n,
            cviews == chunks@.map_values(|v: Vec<u8>| v@),
            rest@ =~= orig.skip(i as int),
            done@.len() == i,
            forall|j: int|
                0 <= j < i ==> done@[j]@ == spec_step_view(orig[j]@, chunks@[j]@, statuses@[j]),
            out@ == spec_cycle_out(views_of(orig).take(i as int), cviews.take(i as int)),
        decreases n - i,
    {
        let mut c = rest.remove(0);
        proof {
            assert(orig.skip(i as int)[0] == orig[i as int]);
            assert(orig.skip(i as int).remove(0) =~= orig.skip(i + 1));
        }
        let mut o = c.step(chunks[i].as_slice(), statuses[i]);
        proof {
            let ghost pv = views_of(orig).take(i as int);
            let ghost pc = cviews.take(i as int);
            let ghost nv = views_of(orig).take(i + 1);
            let ghost nc = cviews.take(i + 1);
            assert(nv.drop_last() =~= pv);
            assert(nc.drop_last() =~= pc);
            assert(nv.last() == orig[i as int]@);
            assert(nc.last() == chunks@[i as int]@);
            assert(spec_cycle_out(nv, nc) == spec_cycle_out(pv, pc) + spec_step_out(
                orig[i as int]@,
                chunks@[i as int]@,
            ));
        }
        out.append(&mut o);
        done.push(c);
        i += 1;
    }
    proof {
        assert(views_of(orig).take(n as int) =~= views_of(orig));
        assert(cviews.take(n as int) =~= cviews);
    }
    (done, out)
}

/// Whether every handle has been retired: when it holds (and every command
/// was followed) the multiplexer has nothing left to poll and may stop.
pub fn all_retired(ctxs: &Vec<CommandCtx>) -> (r: bool)
    ensures
        r == (forall|i: int| 0 <= i < ctxs@.len() ==> !ctxs@[i]@.alive),
{
    let mut i: usize = 0;
    while i < ctxs.len()
        invariant
            i <= ctxs@.len(),
            forall|j: int| 0 <= j < i ==> !ctxs@[j]@.alive,
        decreases ctxs@.len() - i,
    {
        if ctxs[i].is_alive() {
            return false;
        }
        i += 1;
    }
    true
}

} // verus!
