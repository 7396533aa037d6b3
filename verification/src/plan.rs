//! The execution plan: template sources compiled once into the engine,
//! rendering against a snapshot, change-gated writes, and backups with
//! collision protection.
//!
//! The surrounding program performs the reads and writes themselves: it
//! hands each operation what it read (`ApplyInputs`) and carries out the
//! decided effects (`ApplyOutcome`) in order — the backup copy first,
//! then the write.
use vstd::prelude::*;

use crate::diff::{diff_colored, render_diff, unified_diff_of};
use crate::engine::{engine_render, template_compiles, Engine};
use crate::error::Error;
use crate::strutil::{push_char, str_eq};

verus! {

/// Where a template's text comes from. Compiling moves a source to
/// `Cached`, which is terminal: the engine holds the compiled template
/// under the recorded name, and whether the raw text ended in a newline
/// is remembered.
pub enum TemplateSource {
    FileSystem(String),
    StdIn,
    Cached { name: String, contains_trailing_newline: bool },
}

impl TemplateSource {
    /// The name this source is (or will be) cached under: its path, or
    /// `-` for standard input.
    pub open spec fn spec_cache_name(self) -> Seq<char> {
        match self {
            TemplateSource::FileSystem(p) => p@,
            TemplateSource::StdIn => "-"@,
            TemplateSource::Cached { name, .. } => name@,
        }
    }

    /// Whether the compiled source's raw text ended in a newline; only
    /// meaningful once cached.
    pub open spec fn spec_trailing(self) -> bool {
        match self {
            TemplateSource::Cached { contains_trailing_newline, .. } => contains_trailing_newline,
            _ => false,
        }
    }

    /// A source read from the given path, with `-` meaning standard
    /// input.
    pub fn from_path(path: &str) -> (r: Self)
        ensures
            path@ == "-"@ ==> r is StdIn,
            path@ != "-"@ ==> (r matches TemplateSource::FileSystem(p) && p@ == path@),
    {
        proof {
            reveal_strlit("-");
        }
        if str_eq(path, "-") {
            TemplateSource::StdIn
        } else {
            TemplateSource::FileSystem(path.to_owned())
        }
    }

    /// The file path behind this source, where there is one.
    pub fn path(&self) -> (r: Option<&String>)
        ensures
            match r {
                Some(p) => (self matches TemplateSource::FileSystem(q) && p == q) || (
                self matches TemplateSource::Cached { name, .. } && p == name),
                None => self is StdIn,
            },
    {
        match self {
            TemplateSource::FileSystem(p) => Some(p),
            TemplateSource::Cached { name, .. } => Some(name),
            TemplateSource::StdIn => None,
        }
    }

    /// The name of a cached template.
    pub fn get_cached_name(&self) -> (r: &String)
        requires
            self is Cached,
        ensures
            r@ == self.spec_cache_name(),
    {
        match self {
            TemplateSource::Cached { name, .. } => name,
            _ => unreached(),
        }
    }

    /// Whether the compiled source's raw text ended in a newline.
    pub fn get_cached_contains_trailing_newline(&self) -> (r: bool)
        requires
            self is Cached,
        ensures
            r == self.spec_trailing(),
    {
        match self {
            TemplateSource::Cached { contains_trailing_newline, .. } => *contains_trailing_newline,
            _ => unreached(),
        }
    }

    /// Compile this source's text into the engine once. A cached source
    /// is left alone; otherwise the text is compiled and the source
    /// becomes `Cached`, remembering whether the text ended in a newline.
    /// A text that does not compile is a template error and changes the
    /// source's state not at all.
    pub fn ensure_cached(&mut self, engine: &mut Engine, text: &str) -> (r: Result<(), Error>)
        ensures
            (*old(self)) is Cached ==> r is Ok && *final (self) == *old(self) && *final (engine)
                == *old(engine),
            !((*old(self)) is Cached) && template_compiles(text@) ==> r is Ok && (
            (*final (self)) matches TemplateSource::Cached { name, contains_trailing_newline }
                && name@ == old(self).spec_cache_name() && contains_trailing_newline
                == ends_newline(text@)),
            !((*old(self)) is Cached) && !template_compiles(text@) ==> (r matches Err(e)
                && e is TemplateError) && *final (self) == *old(self),
    {
        let name: String = match self {
            TemplateSource::Cached { .. } => {
                return Ok(());
            },
            TemplateSource::FileSystem(p) => p.clone(),
            TemplateSource::StdIn => {
                proof {
                    reveal_strlit("-");
                }
                String::from_str("-")
            },
        };
        let n = text.unicode_len();
        let trailing = n > 0 && text.get_char(n - 1) == '\n';
        match engine.add_template(name.clone(), text.to_owned()) {
            Ok(()) => {
                *self = TemplateSource::Cached { name, contains_trailing_newline: trailing };
                Ok(())
            },
            Err(msg) => Err(Error::TemplateError(msg)),
        }
    }
}

/// Whether a text ends in a newline.
pub open spec fn ends_newline(s: Seq<char>) -> bool {
    s.len() > 0 && s.last() == '\n'
}

/// The text written to a destination: the engine's output, with one
/// newline appended where the raw source text ended in one (engines may
/// normalise a trailing newline away; this restores the author's intent
/// byte for byte).
pub open spec fn output_text(rendered: Seq<char>, trailing: bool) -> Seq<char> {
    if trailing {
        rendered + seq!['\n']
    } else {
        rendered
    }
}

/// Law: trailing newlines are preserved. A source that ended in a newline
/// renders to output that ends in one; a source that did not leaves the
/// engine's output untouched, so output without a trailing newline stays
/// without one.
pub proof fn lemma_trailing_newline(rendered: Seq<char>)
    ensures
        ends_newline(output_text(rendered, true)),
        output_text(rendered, false) == rendered,
        !ends_newline(rendered) ==> !ends_newline(output_text(rendered, false)),
{
}

/// Where rendered text goes.
pub enum TemplateDestination {
    FileSystem(String),
    StdOut,
}

impl TemplateDestination {
    /// The path this destination writes, with `-` for standard output.
    pub open spec fn spec_path(self) -> Seq<char> {
        match self {
            TemplateDestination::FileSystem(p) => p@,
            TemplateDestination::StdOut => "-"@,
        }
    }

    /// A destination at the given path, with `-` meaning standard output.
    pub fn from_path(path: &str) -> (r: Self)
        ensures
            path@ == "-"@ ==> r is StdOut,
            path@ != "-"@ ==> (r matches TemplateDestination::FileSystem(p) && p@ == path@),
    {
        proof {
            reveal_strlit("-");
        }
        if str_eq(path, "-") {
            TemplateDestination::StdOut
        } else {
            TemplateDestination::FileSystem(path.to_owned())
        }
    }

    /// The path this destination writes.
    pub fn path(&self) -> (r: String)
        ensures
            r@ == self.spec_path(),
    {
        proof {
            reveal_strlit("-");
        }
        match self {
            TemplateDestination::FileSystem(p) => p.clone(),
            TemplateDestination::StdOut => String::from_str("-"),
        }
    }

    pub fn is_stdout(&self) -> (r: bool)
        ensures
            r == (self is StdOut),
    {
        match self {
            TemplateDestination::StdOut => true,
            TemplateDestination::FileSystem(_) => false,
        }
    }

    /// Whether this destination can take part in watch-triggered
    /// re-rendering; standard output cannot.
    pub fn supports_notify(&self) -> (r: bool)
        ensures
            r == !(self is StdOut),
    {
        !self.is_stdout()
    }
}

/// One template operation: a source, a destination, and optionally an
/// extension under which the source is backed up before the first write.
pub struct TemplateOperation {
    pub source: TemplateSource,
    pub dest: TemplateDestination,
    pub backup: Option<String>,
}

/// Whether a path has a file name: it is not empty and does not end in a
/// separator.
pub open spec fn has_file_name(p: Seq<char>) -> bool {
    p.len() > 0 && p.last() != '/'
}

/// The sibling path a backup is written to: the source path with a dot
/// and the extension appended.
pub open spec fn backup_path_spec(p: Seq<char>, ext: Seq<char>) -> Seq<char> {
    p + seq!['.'] + ext
}

/// Compute the sibling path a backup is written to.
pub fn backup_path(p: &String, ext: &String) -> (r: String)
    ensures
        r@ == backup_path_spec(p@, ext@),
{
    let mut out = p.clone();
    push_char(&mut out, '.');
    let r = out.concat(ext.as_str());
    proof {
        assert(r@ =~= backup_path_spec(p@, ext@));
    }
    r
}

/// What the surrounding program read from the world for one operation.
pub struct ApplyInputs {
    /// The source template's text; needed while the source is uncompiled.
    pub source_text: Option<String>,
    /// The destination file's current content, an empty text where the
    /// file does not exist yet; needed for file destinations.
    pub dest_existing: Option<String>,
    /// The source file's current bytes; needed where a backup is due.
    pub source_bytes: Option<Vec<u8>>,
    /// The current content of the backup path, where that file exists.
    pub backup_bytes: Option<Vec<u8>>,
    /// The diff header naming the old content, timestamped by its
    /// modification time.
    pub old_header: String,
    /// The diff header naming the new content, timestamped now.
    pub new_header: String,
    /// Whether diff output may be coloured (the stream is a terminal).
    pub color: bool,
}

/// The write an operation decided on.
pub enum WriteAction {
    Nothing,
    WriteStdOut(String),
    WriteFile { path: String, content: String },
}

/// What one operation decided: whether the destination counts as changed,
/// which backup copy to make first, what to write, and what diff to log.
pub struct ApplyOutcome {
    pub changed: bool,
    /// Copy the file at the first path to the second, before the write.
    pub backup: Option<(String, String)>,
    pub write: WriteAction,
    /// A unified diff to log on the diagnostic stream.
    pub diff_text: Option<String>,
}

/// Whether a backup is due: the operation carries an extension and its
/// source's cache name is a path with a usable file name.
pub open spec fn backup_due(op: TemplateOperation) -> bool {
    &&& op.backup is Some
    &&& has_file_name(op.source.spec_cache_name())
}

/// Whether the operation's template is compiled already, or the supplied
/// text compiles.
pub open spec fn compile_ok(op: TemplateOperation, inp: ApplyInputs) -> bool {
    op.source is Cached || template_compiles(inp.source_text->0@)
}

/// Whether the supplied world-state is a backup collision for this
/// operation: a backup is due and about to be made, the backup file
/// already exists, and its bytes differ from the source's current bytes.
pub open spec fn backup_collision(op: TemplateOperation, inp: ApplyInputs, dry_run: bool) -> bool {
    &&& !dry_run
    &&& backup_due(op)
    &&& inp.backup_bytes matches Some(bb) && bb@ != inp.source_bytes->0@
}

impl TemplateOperation {
    pub fn new(source: TemplateSource, dest: TemplateDestination) -> (r: Self)
        ensures
            r.source == source,
            r.dest == dest,
            r.backup is None,
    {
        TemplateOperation { source, dest, backup: None }
    }

    /// An operation templating a file onto itself, optionally backing it
    /// up first.
    pub fn new_in_place(path: &str, backup: Option<&str>) -> (r: Self)
        ensures
            path@ == "-"@ ==> r.source is StdIn && r.dest is StdOut,
            path@ != "-"@ ==> (r.source matches TemplateSource::FileSystem(p) && p@ == path@) && (
            r.dest matches TemplateDestination::FileSystem(q) && q@ == path@),
            match backup {
                Some(ext) => r.backup matches Some(e) && e@ == ext@,
                None => r.backup is None,
            },
    {
        let ret = Self::new(TemplateSource::from_path(path), TemplateDestination::from_path(path));
        match backup {
            Some(extension) => ret.with_backup_extension(extension.to_owned()),
            None => ret,
        }
    }

    /// Back up the source by appending the given extension to its name.
    pub fn with_backup_extension(self, extension: String) -> (r: Self)
        ensures
            r.source == self.source,
            r.dest == self.dest,
            r.backup == Some(extension),
    {
        TemplateOperation { backup: Some(extension), ..self }
    }

    /// Templating standard input to standard output.
    pub fn stdio() -> (r: Self)
        ensures
            r.source is StdIn,
            r.dest is StdOut,
            r.backup is None,
    {
        TemplateOperation {
            source: TemplateSource::StdIn,
            dest: TemplateDestination::StdOut,
            backup: None,
        }
    }

    pub fn ensure_cached(&mut self, engine: &mut Engine, text: &str) -> (r: Result<(), Error>)
        ensures
            old(self).dest == final (self).dest && old(self).backup == final (self).backup,
            old(self).source is Cached ==> r is Ok && *final (self) == *old(self) && *final (engine)
                == *old(engine),
            !(old(self).source is Cached) && template_compiles(text@) ==> r is Ok && (
            (final (self).source) matches TemplateSource::Cached {
                name,
                contains_trailing_newline,
            } && name@ == old(self).source.spec_cache_name() && contains_trailing_newline
                == ends_newline(text@)),
            !(old(self).source is Cached) && !template_compiles(text@) ==> (r matches Err(e)
                && e is TemplateError) && *final (self) == *old(self),
    {
        self.source.ensure_cached(engine, text)
    }

    /// Decide the backup for this operation, clearing its extension so a
    /// backup is attempted only once. Where a backup file already exists
    /// with content other than the source's current bytes, the operation
    /// fails rather than clobber it, and nothing is written at all.
    fn backup_decision(&mut self, inputs: &ApplyInputs) -> (r: Result<Option<(String, String)>, Error>)
        requires
            !(old(self).source is StdIn),
            backup_due(*old(self)) ==> inputs.source_bytes is Some,
        ensures
            final (self).source == old(self).source && final (self).dest == old(self).dest,
            final (self).backup is None,
            !backup_due(*old(self)) ==> r is Ok && r->Ok_0 is None,
            backup_due(*old(self)) ==> {
                let sp = old(self).source.spec_cache_name();
                let bp = backup_path_spec(sp, old(self).backup->0@);
                match inputs.backup_bytes {
                    Some(existing) => {
                        &&& existing@ != inputs.source_bytes->0@ ==> (r matches Err(e)
                            && e matches Error::BackupWouldBeOverwritten(q) && q@ == bp)
                        &&& existing@ == inputs.source_bytes->0@ ==> (r matches Ok(b)
                            && b matches Some((from, to)) && from@ == sp && to@ == bp)
                    },
                    None => r matches Ok(b) && b matches Some((from, to)) && from@ == sp && to@
                        == bp,
                }
            },
    {
        let extension = match &self.backup {
            None => {
                return Ok(None);
            },
            Some(e) => e.clone(),
        };
        self.backup = None;
        let sp: String = match self.source.path() {
            None => {
                return Ok(None);
            },
            Some(p) => p.clone(),
        };
        let n = sp.as_str().unicode_len();
        if n == 0 || sp.as_str().get_char(n - 1) == '/' {
            return Ok(None);
        }
        let bp = backup_path(&sp, &extension);
        match &inputs.backup_bytes {
            Some(existing) => {
                let source_now = match &inputs.source_bytes {
                    Some(b) => b,
                    None => {
                        proof {
                            assert(false);
                        }
                        return Ok(None);
                    },
                };
                if !bytes_eq(existing, source_now) {
                    return Err(Error::BackupWouldBeOverwritten(bp));
                }
                Ok(Some((sp, bp)))
            },
            None => Ok(Some((sp, bp))),
        }
    }
}

impl TemplateDestination {
    /// Decide the write: standard output always counts as changed and is
    /// always written whole; a file counts as changed, and is rewritten,
    /// exactly when its content would differ. In a dry run nothing is
    /// written and no diff is logged, but whether the destination would
    /// change is still reported. A changed file write logs a unified
    /// diff when asked to, coloured only for a terminal.
    #[verifier::rlimit(30)]
    pub fn write_decision(
        &self,
        text: String,
        existing: &Option<String>,
        dry_run: bool,
        log_diff: bool,
        old_header: &String,
        new_header: &String,
        color: bool,
    ) -> (r: (bool, WriteAction, Option<String>))
        requires
            (self is FileSystem) ==> existing is Some,
        ensures
            ({
                let (changed, action, diff) = r;
                match self {
                    TemplateDestination::StdOut => changed && diff is None && (if dry_run {
                        action is Nothing
                    } else {
                        action matches WriteAction::WriteStdOut(s) && s@ == text@
                    }),
                    TemplateDestination::FileSystem(p) => {
                        &&& changed == (text@ != existing->0@)
                        &&& (!dry_run && changed) ==> (action matches WriteAction::WriteFile {
                            path,
                            content,
                        } && path@ == p@ && content@ == text@)
                        &&& (dry_run || !changed) ==> action is Nothing
                        &&& (!dry_run && changed && log_diff) ==> (diff matches Some(d) && (!color
                            ==> d@ == unified_diff_of(existing->0@, text@, old_header@, new_header@))
                            && (color ==> diff_colored(
                            d@,
                            unified_diff_of(existing->0@, text@, old_header@, new_header@),
                        )))
                        &&& (dry_run || !changed || !log_diff) ==> diff is None
                    },
                }
            }),
    {
        match self {
            TemplateDestination::StdOut => {
                if dry_run {
                    (true, WriteAction::Nothing, None)
                } else {
                    (true, WriteAction::WriteStdOut(text), None)
                }
            },
            TemplateDestination::FileSystem(p) => {
                let current = match existing {
                    Some(c) => c,
                    None => {
                        proof {
                            assert(false);
                        }
                        return (false, WriteAction::Nothing, None);
                    },
                };
                let changed = !str_eq(text.as_str(), current.as_str());
                if dry_run || !changed {
                    (changed, WriteAction::Nothing, None)
                } else {
                    let diff: Option<String> = if log_diff {
                        Some(
                            render_diff(
                                current.as_str(),
                                text.as_str(),
                                old_header.as_str(),
                                new_header.as_str(),
                                color,
                            ),
                        )
                    } else {
                        None
                    };
                    (changed, WriteAction::WriteFile { path: p.clone(), content: text }, diff)
                }
            },
        }
    }
}

impl TemplateOperation {
    /// Render this operation's compiled template against the JSON
    /// context text, restoring the source's trailing newline.
    pub fn render(&self, engine: &Engine, ctx_json: &str) -> (r: Result<String, Error>)
        requires
            self.source is Cached,
        ensures
            match engine_render(*engine, self.source.spec_cache_name(), ctx_json@) {
                Some(rendered) => r matches Ok(s) && s@ == output_text(
                    rendered,
                    self.source.spec_trailing(),
                ),
                None => r matches Err(e) && e is TemplateError,
            },
    {
        let name = self.source.get_cached_name().clone();
        match engine.render(name.as_str(), ctx_json) {
            Ok(rendered) => {
                let mut s = rendered;
                if self.source.get_cached_contains_trailing_newline() {
                    push_char(&mut s, '\n');
                }
                proof {
                    assert(s@ =~= output_text(
                        engine_render(*engine, self.source.spec_cache_name(), ctx_json@)->0,
                        self.source.spec_trailing(),
                    ));
                }
                Ok(s)
            },
            Err(msg) => Err(Error::TemplateError(msg)),
        }
    }

    /// Apply this operation: compile the source if needed, render against
    /// the snapshot's JSON text, and decide the backup copy and the
    /// write. The surrounding program performs the backup before the
    /// write. In a dry run the backup keeps its extension, nothing is
    /// written, and whether the destination would change is still
    /// reported. A backup collision aborts the operation with nothing
    /// written at all (the law of backup safety), and a compile or
    /// render failure aborts it before the backup is even considered.
    /// The first run that is not a dry run consumes the backup
    /// extension, so later runs of the same operation — the watch-mode
    /// cycles — make no further backup and no further collision check:
    /// were it otherwise, a cycle's own backup would collide with the
    /// next one's.
    pub fn apply(
        &mut self,
        engine: &mut Engine,
        ctx_json: &str,
        inputs: ApplyInputs,
        dry_run: bool,
        log_diff: bool,
    ) -> (r: Result<ApplyOutcome, Error>)
        requires
            !(old(self).source is Cached) ==> inputs.source_text is Some,
            old(self).dest is FileSystem ==> inputs.dest_existing is Some,
            (!dry_run && backup_due(*old(self))) ==> inputs.source_bytes is Some,
        ensures
            final (self).dest == old(self).dest,
            final (self).source.spec_cache_name() == old(self).source.spec_cache_name(),
            old(self).source is Cached ==> final (self).source == old(self).source && *final (
                engine
            ) == *old(engine),
            match r {
                Ok(out) => {
                    let name = old(self).source.spec_cache_name();
                    let rendered = engine_render(*final (engine), name, ctx_json@);
                    let text = output_text(rendered->0, final (self).source.spec_trailing());
                    &&& final (self).source is Cached
                    &&& rendered is Some
                    &&& match old(self).dest {
                        TemplateDestination::StdOut => out.changed && out.diff_text is None && (
                        if dry_run {
                            out.write is Nothing
                        } else {
                            out.write matches WriteAction::WriteStdOut(s) && s@ == text
                        }),
                        TemplateDestination::FileSystem(p) => {
                            &&& out.changed == (text != inputs.dest_existing->0@)
                            &&& (!dry_run && out.changed) ==> (
                            out.write matches WriteAction::WriteFile { path, content } && path@
                                == p@ && content@ == text)
                            &&& (dry_run || !out.changed) ==> out.write is Nothing
                            &&& (!dry_run && out.changed && log_diff) ==> (
                            out.diff_text matches Some(d) && (!inputs.color ==> d@
                                == unified_diff_of(
                                inputs.dest_existing->0@,
                                text,
                                inputs.old_header@,
                                inputs.new_header@,
                            )) && (inputs.color ==> diff_colored(
                                d@,
                                unified_diff_of(
                                    inputs.dest_existing->0@,
                                    text,
                                    inputs.old_header@,
                                    inputs.new_header@,
                                ),
                            )))
                            &&& (dry_run || !out.changed || !log_diff) ==> out.diff_text is None
                        },
                    }
                    &&& (!dry_run && backup_due(*old(self))) ==> (out.backup matches Some(
                        (from, to),
                    ) && from@ == name && to@ == backup_path_spec(name, old(self).backup->0@)
                        && (inputs.backup_bytes matches Some(bb) ==> bb@
                        == inputs.source_bytes->0@))
                    &&& (dry_run || !backup_due(*old(self))) ==> out.backup is None
                    &&& (dry_run ==> final (self).backup == old(self).backup)
                    &&& (!dry_run ==> final (self).backup is None)
                },
                Err(e) => {
                    &&& (e is TemplateError || e is BackupWouldBeOverwritten)
                    &&& e is BackupWouldBeOverwritten ==> {
                        &&& backup_collision(*old(self), inputs, dry_run)
                        &&& e matches Error::BackupWouldBeOverwritten(q) && q@ == backup_path_spec(
                            old(self).source.spec_cache_name(),
                            old(self).backup->0@,
                        )
                    }
                },
            },
            // success is owed, and each error is tied to its cause: a
            // compiling source that renders succeeds unless the world
            // holds a backup collision, a collision under a successful
            // render yields exactly the collision error, and a template
            // error happens only where compiling or rendering failed
            compile_ok(*old(self), inputs) && engine_render(
                *final (engine),
                old(self).source.spec_cache_name(),
                ctx_json@,
            ) is Some ==> if backup_collision(*old(self), inputs, dry_run) {
                r matches Err(e) && e is BackupWouldBeOverwritten
            } else {
                r is Ok
            },
            !compile_ok(*old(self), inputs) ==> (r matches Err(e) && e is TemplateError),
            (r matches Err(e) && e is TemplateError) ==> (!compile_ok(*old(self), inputs)
                || engine_render(
                *final (engine),
                old(self).source.spec_cache_name(),
                ctx_json@,
            ) is None),
    {
        let text_ref: &str = match &inputs.source_text {
            Some(t) => t.as_str(),
            None => "",
        };
        match self.ensure_cached(engine, text_ref) {
            Ok(()) => {},
            Err(e) => {
                return Err(e);
            },
        }
        let rendered = match self.render(engine, ctx_json) {
            Ok(s) => s,
            Err(e) => {
                return Err(e);
            },
        };
        if dry_run {
            let (changed, write, diff_text) = self.dest.write_decision(
                rendered,
                &inputs.dest_existing,
                true,
                log_diff,
                &inputs.old_header,
                &inputs.new_header,
                inputs.color,
            );
            return Ok(ApplyOutcome { changed, backup: None, write, diff_text });
        }
        let backup = match self.backup_decision(&inputs) {
            Ok(b) => b,
            Err(e) => {
                return Err(e);
            },
        };
        let (changed, write, diff_text) = self.dest.write_decision(
            rendered,
            &inputs.dest_existing,
            false,
            log_diff,
            &inputs.old_header,
            &inputs.new_header,
            inputs.color,
        );
        Ok(ApplyOutcome { changed, backup, write, diff_text })
    }
}

/// Law: idempotent write. Rendering the same cached template against the
/// same engine and the same snapshot text a second time yields the same
/// output text; a destination that already holds that text is reported
/// unchanged and is written not at all, so its modification time cannot
/// move.
pub proof fn lemma_idempotent_write(
    e: Engine,
    name: Seq<char>,
    ctx: Seq<char>,
    trailing: bool,
    existing: Seq<char>,
)
    requires
        engine_render(e, name, ctx) is Some,
        existing == output_text(engine_render(e, name, ctx)->0, trailing),
    ensures
        output_text(engine_render(e, name, ctx)->0, trailing) == existing,
        !(output_text(engine_render(e, name, ctx)->0, trailing) != existing),
{
}

/// What an operation's inputs must hold before it can run.
pub open spec fn plan_inputs_ok(op: TemplateOperation, inp: ApplyInputs, dry_run: bool) -> bool {
    &&& !(op.source is Cached) ==> inp.source_text is Some
    &&& op.dest is FileSystem ==> inp.dest_existing is Some
    &&& (!dry_run && backup_due(op)) ==> inp.source_bytes is Some
}

/// The engine-independent promises of one operation's result: write and
/// backup targets fit the operation, standard output always counts as
/// changed, nothing is written in a dry run or when unchanged, and a
/// failure is a template error or a backup collision.
pub open spec fn outcome_wf(
    op: TemplateOperation,
    inp: ApplyInputs,
    r: Result<ApplyOutcome, Error>,
    dry_run: bool,
    log_diff: bool,
) -> bool {
    &&& (!compile_ok(op, inp) ==> (r matches Err(e) && e is TemplateError))
    &&& match r {
        Ok(out) => {
            &&& match op.dest {
                TemplateDestination::StdOut => out.changed && out.diff_text is None && (if dry_run {
                    out.write is Nothing
                } else {
                    out.write is WriteStdOut
                }),
                TemplateDestination::FileSystem(p) => {
                    &&& (out.write matches WriteAction::WriteFile { path, .. } ==> path@ == p@
                        && out.changed && !dry_run)
                    &&& ((dry_run || !out.changed) ==> out.write is Nothing)
                    &&& ((dry_run || !log_diff || !out.changed) ==> out.diff_text is None)
                },
            }
            &&& ((!dry_run && backup_due(op)) ==> (out.backup matches Some((from, to)) && from@
                == op.source.spec_cache_name() && to@ == backup_path_spec(
                op.source.spec_cache_name(),
                op.backup->0@,
            )))
            &&& ((dry_run || !backup_due(op)) ==> out.backup is None)
        },
        Err(e) => {
            &&& (e is TemplateError || e is BackupWouldBeOverwritten)
            &&& e is BackupWouldBeOverwritten ==> backup_collision(op, inp, dry_run) && (
            e matches Error::BackupWouldBeOverwritten(q) && q@ == backup_path_spec(
                op.source.spec_cache_name(),
                op.backup->0@,
            ))
        },
    }
}

/// How an operation's state may move under one run: the destination and
/// the cache name never change, and a successful run leaves the source
/// compiled.
pub open spec fn op_processed(
    before: TemplateOperation,
    after: TemplateOperation,
    r: Result<ApplyOutcome, Error>,
) -> bool {
    &&& after.dest == before.dest
    &&& after.source.spec_cache_name() == before.source.spec_cache_name()
    &&& (r is Ok ==> after.source is Cached)
}

/// The exact content one outcome carries when the engine's cache was
/// complete before the run (so the engine value never moves): the
/// operation's template rendered against the snapshot text, trailing
/// newline restored, gating the write.
pub open spec fn outcome_render_exact(
    op: TemplateOperation,
    inp: ApplyInputs,
    out: ApplyOutcome,
    e: Engine,
    ctx: Seq<char>,
    dry_run: bool,
) -> bool {
    engine_render(e, op.source.spec_cache_name(), ctx) matches Some(rendered) && {
        let text = output_text(rendered, op.source.spec_trailing());
        match op.dest {
            TemplateDestination::StdOut => !dry_run ==> (
            out.write matches WriteAction::WriteStdOut(s) && s@ == text),
            TemplateDestination::FileSystem(p) => {
                &&& out.changed == (text != inp.dest_existing->0@)
                &&& (!dry_run && out.changed) ==> (out.write matches WriteAction::WriteFile {
                    path,
                    content,
                } && path@ == p@ && content@ == text)
            },
        }
    }
}

/// An ordered sequence of template operations sharing one engine cache.
pub struct Plan {
    pub operations: Vec<TemplateOperation>,
}

impl Plan {
    /// A plan with a single operation, templating standard input to
    /// standard output.
    pub fn stdio() -> (r: Self)
        ensures
            r.operations@.len() == 1,
            r.operations@[0].source is StdIn,
            r.operations@[0].dest is StdOut,
            r.operations@[0].backup is None,
    {
        let mut operations: Vec<TemplateOperation> = Vec::new();
        operations.push(TemplateOperation::stdio());
        Plan { operations }
    }

    /// A plan made of the given operations, in order.
    pub fn from_operations(operations: Vec<TemplateOperation>) -> (r: Self)
        ensures
            r.operations == operations,
    {
        Plan { operations }
    }

    pub fn add_template(&mut self, source: TemplateSource, dest: TemplateDestination)
        ensures
            final (self).operations@.len() == old(self).operations@.len() + 1,
            forall|i: int|
                0 <= i < old(self).operations@.len() ==> final (self).operations@[i] == old(self).operations@[i],
            final (self).operations@.last().source == source,
            final (self).operations@.last().dest == dest,
            final (self).operations@.last().backup is None,
    {
        self.operations.push(TemplateOperation::new(source, dest));
    }

    /// The operations, in order.
    pub fn iter(&self) -> (r: &Vec<TemplateOperation>)
        ensures
            r == &self.operations,
    {
        &self.operations
    }

    /// Compile every operation's source into the engine, stopping loudly
    /// at the first template that does not compile. The texts stand in
    /// for what the surrounding program read, one per operation, and may
    /// be absent for already-compiled sources.
    pub fn ensure_cached(&mut self, engine: &mut Engine, texts: &Vec<Option<String>>) -> (r: Result<
        (),
        Error,
    >)
        requires
            texts@.len() == old(self).operations@.len(),
            forall|i: int|
                0 <= i < old(self).operations@.len() ==> (!((#[trigger] old(self).operations@[i]).source is Cached) ==> texts@[i] is Some),
        ensures
            final (self).operations@.len() == old(self).operations@.len(),
            forall|i: int|
                0 <= i < old(self).operations@.len() ==> {
                    let before = old(self).operations@[i];
                    let after = #[trigger] final (self).operations@[i];
                    &&& after.dest == before.dest
                    &&& after.backup == before.backup
                    &&& after.source.spec_cache_name() == before.source.spec_cache_name()
                },
            r is Ok ==> forall|i: int|
                0 <= i < final (self).operations@.len() ==> (#[trigger] final (self).operations@[i]).source is Cached,
            // success is had exactly when every uncompiled text
            // compiles: an Ok promises the texts were good, and good
            // texts cannot fail
            r is Ok ==> forall|i: int|
                0 <= i < old(self).operations@.len() ==> ((#[trigger] old(self).operations@[i]).source is Cached
                    || template_compiles(texts@[i]->0@)),
            (forall|i: int|
                0 <= i < old(self).operations@.len() ==> ((#[trigger] old(self).operations@[i]).source is Cached || template_compiles(texts@[i]->0@))) ==> r is Ok,
            // a failure is the first operation whose text does not
            // compile: the ones before it are compiled, the rest untouched
            r matches Err(e) ==> e is TemplateError && (exists|k: int|
                {
                    &&& 0 <= k < old(self).operations@.len()
                    &&& !((#[trigger] old(self).operations@[k]).source is Cached)
                    &&& !template_compiles(texts@[k]->0@)
                    &&& forall|j: int|
                        0 <= j < k ==> ((#[trigger] old(self).operations@[j]).source is Cached
                            || template_compiles(texts@[j]->0@))
                    &&& forall|j: int|
                        0 <= j < k ==> (#[trigger] final (self).operations@[j]).source is Cached
                    &&& forall|j: int|
                        k <= j < old(self).operations@.len() ==> final (self).operations@[j] == old(self).operations@[j]
                }),
    {
        let ghost orig = self.operations@;
        let mut i: usize = 0;
        while i < self.operations.len()
            invariant
                orig == old(self).operations@,
                self.operations@.len() == orig.len(),
                i <= orig.len(),
                texts@.len() == orig.len(),
                forall|j: int|
                    0 <= j < orig.len() ==> (!((#[trigger] orig[j]).source is Cached) ==> texts@[j] is Some),
                forall|j: int| i <= j < orig.len() ==> self.operations@[j] == orig[j],
                forall|j: int|
                    0 <= j < i ==> ((#[trigger] orig[j]).source is Cached || template_compiles(
                        texts@[j]->0@,
                    )),
                forall|j: int|
                    0 <= j < i ==> {
                        let before = orig[j];
                        let after = #[trigger] self.operations@[j];
                        &&& after.dest == before.dest
                        &&& after.backup == before.backup
                        &&& after.source.spec_cache_name() == before.source.spec_cache_name()
                        &&& after.source is Cached
                    },
            decreases orig.len() - i,
        {
            let ghost snapshot = self.operations@;
            let mut op = self.operations.remove(i);
            let text_ref: &str = match &texts[i] {
                Some(t) => t.as_str(),
                None => "",
            };
            let res = op.ensure_cached(engine, text_ref);
            self.operations.insert(i, op);
            proof {
                assert(self.operations@ =~= snapshot.update(i as int, self.operations@[i as int]));
            }
            match res {
                Ok(()) => {},
                Err(e) => {
                    proof {
                        assert(!((orig[i as int]).source is Cached));
                        assert(!template_compiles(texts@[i as int]->0@));
                        assert(forall|j: int|
                            i <= j < orig.len() ==> self.operations@[j] == orig[j]);
                    }
                    return Err(e);
                },
            }
            i = i + 1;
        }
        Ok(())
    }

    /// Apply every operation in order, keeping going past failures: the
    /// best-effort mode used for watch-triggered reconciliation. The
    /// result holds one outcome or error per operation, in order.
    pub fn execute(
        &mut self,
        engine: &mut Engine,
        ctx_json: &str,
        inputs: Vec<ApplyInputs>,
        dry_run: bool,
        log_diff: bool,
    ) -> (r: Vec<Result<ApplyOutcome, Error>>)
        requires
            inputs@.len() == old(self).operations@.len(),
            forall|i: int|
                0 <= i < old(self).operations@.len() ==> plan_inputs_ok(
                    #[trigger] old(self).operations@[i],
                    inputs@[i],
                    dry_run,
                ),
        ensures
            r@.len() == old(self).operations@.len(),
            final (self).operations@.len() == old(self).operations@.len(),
            forall|i: int|
                0 <= i < r@.len() ==> outcome_wf(
                    old(self).operations@[i],
                    inputs@[i],
                    #[trigger] r@[i],
                    dry_run,
                    log_diff,
                ) && op_processed(old(self).operations@[i], final (self).operations@[i], r@[i]),
            (forall|i: int|
                0 <= i < old(self).operations@.len() ==> (#[trigger] old(self).operations@[i]).source is Cached) ==> *final (engine) == *old(engine) && (
            forall|i: int|
                0 <= i < r@.len() ==> ((#[trigger] r@[i]) matches Ok(out) ==> outcome_render_exact(
                    old(self).operations@[i],
                    inputs@[i],
                    out,
                    *old(engine),
                    ctx_json@,
                    dry_run,
                ))) && (forall|i: int|
                0 <= i < r@.len() ==> (engine_render(
                    *old(engine),
                    (#[trigger] old(self).operations@[i]).source.spec_cache_name(),
                    ctx_json@,
                ) is Some && !backup_collision(old(self).operations@[i], inputs@[i], dry_run)
                    ==> r@[i] is Ok)) && (forall|i: int|
                0 <= i < r@.len() ==> ((#[trigger] r@[i]) matches Err(e) && e is TemplateError
                    ==> engine_render(
                    *old(engine),
                    old(self).operations@[i].source.spec_cache_name(),
                    ctx_json@,
                ) is None)),
    {
        let ghost orig = self.operations@;
        let ghost orig_in = inputs@;
        let mut ins = inputs;
        let mut results: Vec<Result<ApplyOutcome, Error>> = Vec::new();
        let mut i: usize = 0;
        while i < self.operations.len()
            invariant
                orig == old(self).operations@,
                self.operations@.len() == orig.len(),
                i <= orig.len(),
                orig_in.len() == orig.len(),
                ins@ =~= orig_in.subrange(i as int, orig_in.len() as int),
                forall|j: int| 0 <= j < orig.len() ==> plan_inputs_ok(#[trigger] orig[j], orig_in[j], dry_run),
                forall|j: int| i <= j < orig.len() ==> self.operations@[j] == orig[j],
                results@.len() == i,
                forall|j: int|
                    0 <= j < i ==> outcome_wf(
                        orig[j],
                        orig_in[j],
                        #[trigger] results@[j],
                        dry_run,
                        log_diff,
                    ) && op_processed(orig[j], self.operations@[j], results@[j]),
                (forall|j: int| 0 <= j < orig.len() ==> (#[trigger] orig[j]).source is Cached)
                    ==> *engine == *old(engine) && (forall|j: int|
                    0 <= j < i ==> ((#[trigger] results@[j]) matches Ok(out)
                        ==> outcome_render_exact(
                        orig[j],
                        orig_in[j],
                        out,
                        *old(engine),
                        ctx_json@,
                        dry_run,
                    ))) && (forall|j: int|
                    0 <= j < i ==> (engine_render(
                        *old(engine),
                        (#[trigger] orig[j]).source.spec_cache_name(),
                        ctx_json@,
                    ) is Some && !backup_collision(orig[j], orig_in[j], dry_run)
                        ==> results@[j] is Ok)) && (forall|j: int|
                    0 <= j < i ==> ((#[trigger] results@[j]) matches Err(e) && e is TemplateError
                        ==> engine_render(
                        *old(engine),
                        orig[j].source.spec_cache_name(),
                        ctx_json@,
                    ) is None)),
            decreases orig.len() - i,
        {
            let ghost snapshot = self.operations@;
            let mut op = self.operations.remove(i);
            let inp = ins.remove(0);
            proof {
                assert(op == orig[i as int]);
                assert(inp == orig_in[i as int]);
                assert(plan_inputs_ok(orig[i as int], orig_in[i as int], dry_run));
            }
            let res = op.apply(engine, ctx_json, inp, dry_run, log_diff);
            self.operations.insert(i, op);
            proof {
                assert(self.operations@ =~= snapshot.update(i as int, self.operations@[i as int]));
                assert(ins@ =~= orig_in.subrange(i as int + 1, orig_in.len() as int));
            }
            results.push(res);
            i = i + 1;
        }
        results
    }

    /// Apply every operation in order, aborting on the first failure:
    /// the strict mode used for the initial one-shot pass.
    #[verifier::rlimit(80)]
    pub fn try_execute(
        &mut self,
        engine: &mut Engine,
        ctx_json: &str,
        inputs: Vec<ApplyInputs>,
        dry_run: bool,
        log_diff: bool,
    ) -> (r: Result<Vec<ApplyOutcome>, Error>)
        requires
            inputs@.len() == old(self).operations@.len(),
            forall|i: int|
                0 <= i < old(self).operations@.len() ==> plan_inputs_ok(
                    #[trigger] old(self).operations@[i],
                    inputs@[i],
                    dry_run,
                ),
        ensures
            final (self).operations@.len() == old(self).operations@.len(),
            match r {
                Ok(outs) => outs@.len() == old(self).operations@.len() && forall|i: int|
                    0 <= i < outs@.len() ==> outcome_wf(
                        old(self).operations@[i],
                        inputs@[i],
                        Ok(#[trigger] outs@[i]),
                        dry_run,
                        log_diff,
                    ) && op_processed(
                        old(self).operations@[i],
                        final (self).operations@[i],
                        Ok(outs@[i]),
                    ),
                Err(e) => e is TemplateError || e is BackupWouldBeOverwritten,
            },
            // a failure is the first failing operation's error: the
            // operations before it ran (their sources are compiled), the
            // ones after it are untouched, and a collision error carries
            // that operation's collision
            r matches Err(e) ==> (exists|k: int|
                #![auto]
                {
                    &&& 0 <= k < old(self).operations@.len()
                    &&& forall|j: int|
                        0 <= j < k ==> (#[trigger] final (self).operations@[j]).source is Cached
                    &&& forall|j: int|
                        k < j < old(self).operations@.len() ==> final (self).operations@[j] == old(self).operations@[j]
                    &&& (e is BackupWouldBeOverwritten ==> backup_collision(
                        old(self).operations@[k],
                        inputs@[k],
                        dry_run,
                    ) && (e matches Error::BackupWouldBeOverwritten(q) && q@ == backup_path_spec(
                        old(self).operations@[k].source.spec_cache_name(),
                        old(self).operations@[k].backup->0@,
                    )))
                    &&& (e is TemplateError ==> (!compile_ok(old(self).operations@[k], inputs@[k])
                        || ((forall|j: int|
                        0 <= j < old(self).operations@.len() ==> (#[trigger] old(self).operations@[j]).source is Cached) ==> engine_render(
                        *old(engine),
                        old(self).operations@[k].source.spec_cache_name(),
                        ctx_json@,
                    ) is None)))
                }),
            (forall|i: int|
                0 <= i < old(self).operations@.len() ==> (#[trigger] old(self).operations@[i]).source is Cached) ==> *final (engine) == *old(engine) && (
            r matches Ok(outs) ==> forall|i: int|
                0 <= i < outs@.len() ==> outcome_render_exact(
                    old(self).operations@[i],
                    inputs@[i],
                    #[trigger] outs@[i],
                    *old(engine),
                    ctx_json@,
                    dry_run,
                )) && ((forall|i: int|
                0 <= i < old(self).operations@.len() ==> engine_render(
                    *old(engine),
                    (#[trigger] old(self).operations@[i]).source.spec_cache_name(),
                    ctx_json@,
                ) is Some && !backup_collision(old(self).operations@[i], inputs@[i], dry_run))
                ==> r is Ok),
    {
        let ghost orig = self.operations@;
        let ghost orig_in = inputs@;
        let mut ins = inputs;
        let mut results: Vec<ApplyOutcome> = Vec::new();
        let mut i: usize = 0;
        while i < self.operations.len()
            invariant
                orig == old(self).operations@,
                self.operations@.len() == orig.len(),
                i <= orig.len(),
                orig_in.len() == orig.len(),
                orig_in == inputs@,
                ins@ =~= orig_in.subrange(i as int, orig_in.len() as int),
                forall|j: int| 0 <= j < orig.len() ==> plan_inputs_ok(#[trigger] orig[j], orig_in[j], dry_run),
                forall|j: int| i <= j < orig.len() ==> self.operations@[j] == orig[j],
                results@.len() == i,
                forall|j: int|
                    0 <= j < i ==> outcome_wf(
                        orig[j],
                        orig_in[j],
                        Ok(#[trigger] results@[j]),
                        dry_run,
                        log_diff,
                    ) && op_processed(orig[j], self.operations@[j], Ok(results@[j])),
                (forall|j: int| 0 <= j < orig.len() ==> (#[trigger] orig[j]).source is Cached)
                    ==> *engine == *old(engine) && (forall|j: int|
                    0 <= j < i ==> outcome_render_exact(
                        orig[j],
                        orig_in[j],
                        #[trigger] results@[j],
                        *old(engine),
                        ctx_json@,
                        dry_run,
                    )),
            decreases orig.len() - i,
        {
            let ghost snapshot = self.operations@;
            let mut op = self.operations.remove(i);
            let inp = ins.remove(0);
            proof {
                assert(op == orig[i as int]);
                assert(inp == orig_in[i as int]);
                assert(plan_inputs_ok(orig[i as int], orig_in[i as int], dry_run));
            }
            let res = op.apply(engine, ctx_json, inp, dry_run, log_diff);
            self.operations.insert(i, op);
            proof {
                assert(self.operations@ =~= snapshot.update(i as int, self.operations@[i as int]));
                assert(ins@ =~= orig_in.subrange(i as int + 1, orig_in.len() as int));
            }
            match res {
                Ok(out) => {
                    results.push(out);
                },
                Err(e) => {
                    proof {
                        assert forall|j: int|
                            0 <= j < i implies (#[trigger] self.operations@[j]).source
                            is Cached by {
                            assert(op_processed(orig[j], snapshot[j], Ok(results@[j])));
                            assert(self.operations@[j] == snapshot[j]);
                        }
                        assert forall|j: int|
                            i < j < orig.len() implies self.operations@[j] == orig[j] by {
                            assert(self.operations@[j] == snapshot[j]);
                        }
                        if forall|j: int| 0 <= j < orig.len() ==> (#[trigger] orig[j]).source
                            is Cached {
                            assert(orig[i as int].source is Cached);
                            assert(*engine == *old(engine));
                            if forall|t: int|
                                0 <= t < orig.len() ==> engine_render(
                                    *old(engine),
                                    (#[trigger] orig[t]).source.spec_cache_name(),
                                    ctx_json@,
                                ) is Some && !backup_collision(orig[t], orig_in[t], dry_run) {
                                assert(engine_render(
                                    *old(engine),
                                    orig[i as int].source.spec_cache_name(),
                                    ctx_json@,
                                ) is Some);
                                assert(!backup_collision(orig[i as int], orig_in[i as int], dry_run));
                                assert(false);
                            }
                        }
                    }
                    return Err(e);
                },
            }
            i = i + 1;
        }
        Ok(results)
    }

    /// The destination paths of the operations whose outcome reports a
    /// change, in plan order: what the reload action is told about.
    pub fn changed_paths(&self, results: &Vec<Result<ApplyOutcome, Error>>) -> (r: Vec<String>)
        requires
            results@.len() == self.operations@.len(),
        ensures
            r@.map_values(|p: String| p@) == changed_paths_spec(self.operations@, results@),
    {
        let ghost model = changed_paths_spec(self.operations@, results@);
        let mut out: Vec<String> = Vec::new();
        let mut i: usize = 0;
        while i < results.len()
            invariant
                i <= results@.len(),
                results@.len() == self.operations@.len(),
                out@.map_values(|p: String| p@) =~= changed_paths_spec(
                    self.operations@.subrange(0, i as int),
                    results@.subrange(0, i as int),
                ),
            decreases results@.len() - i,
        {
            let ghost ops_pre = self.operations@.subrange(0, i as int);
            let ghost rs_pre = results@.subrange(0, i as int);
            let ghost ops_next = self.operations@.subrange(0, i as int + 1);
            let ghost rs_next = results@.subrange(0, i as int + 1);
            proof {
                assert(ops_next.drop_last() =~= ops_pre);
                assert(rs_next.drop_last() =~= rs_pre);
                assert(ops_next.last() == self.operations@[i as int]);
                assert(rs_next.last() == results@[i as int]);
            }
            match &results[i] {
                Ok(out_i) => {
                    if out_i.changed {
                        let p = self.operations[i].dest.path();
                        out.push(p);
                    }
                },
                Err(_) => {},
            }
            proof {
                assert(out@.map_values(|p: String| p@) =~= changed_paths_spec(ops_next, rs_next));
            }
            i = i + 1;
        }
        proof {
            assert(self.operations@.subrange(0, self.operations@.len() as int)
                =~= self.operations@);
            assert(results@.subrange(0, results@.len() as int) =~= results@);
        }
        out
    }
}

/// The destination paths of the operations whose outcome reports a
/// change, in order.
pub open spec fn changed_paths_spec(
    ops: Seq<TemplateOperation>,
    rs: Seq<Result<ApplyOutcome, Error>>,
) -> Seq<Seq<char>>
    decreases rs.len(),
{
    if rs.len() == 0 || ops.len() != rs.len() {
        Seq::empty()
    } else {
        changed_paths_spec(ops.drop_last(), rs.drop_last()) + (match rs.last() {
            Result::Ok(out) => if out.changed {
                seq![ops.last().dest.spec_path()]
            } else {
                Seq::empty()
            },
            Result::Err(_) => Seq::empty(),
        })
    }
}

/// Whether files are edited in place, and whether a backup suffix was
/// asked for along the way.
pub enum InPlace {
    No,
    WithoutSuffix,
    WithSuffix(String),
}

impl InPlace {
    /// The backup suffix, where one was given.
    pub fn extension(&self) -> (r: Option<&str>)
        ensures
            match self {
                InPlace::WithSuffix(s) => r matches Some(e) && e@ == s@,
                _ => r is None,
            },
    {
        match self {
            InPlace::No => None,
            InPlace::WithoutSuffix => None,
            InPlace::WithSuffix(suffix) => Some(suffix.as_str()),
        }
    }

    /// Whether in-place editing was asked for at all.
    pub fn is_active(&self) -> (r: bool)
        ensures
            r == !(self is No),
    {
        match self {
            InPlace::No => false,
            InPlace::WithoutSuffix => true,
            InPlace::WithSuffix(_) => true,
        }
    }
}

/// Whether two destinations name the same place.
pub open spec fn same_dest(a: TemplateDestination, b: TemplateDestination) -> bool {
    a.spec_path() == b.spec_path() && ((a is StdOut) == (b is StdOut))
}

/// Whether no two of the given destinations name the same place.
pub fn elements_are_unique(items: &Vec<TemplateDestination>) -> (r: bool)
    ensures
        r == (forall|i: int, j: int|
            0 <= i < j < items@.len() ==> !same_dest(#[trigger] items@[i], #[trigger] items@[j])),
{
    let mut i: usize = 0;
    while i < items.len()
        invariant
            i <= items@.len(),
            forall|a: int, b: int|
                0 <= a < b < items@.len() && b < i ==> !same_dest(
                    #[trigger] items@[a],
                    #[trigger] items@[b],
                ),
        decreases items@.len() - i,
    {
        let mut j: usize = 0;
        while j < i
            invariant
                j <= i < items@.len(),
                forall|a: int, b: int|
                    0 <= a < b < items@.len() && b < i ==> !same_dest(
                        #[trigger] items@[a],
                        #[trigger] items@[b],
                    ),
                forall|a: int| 0 <= a < j ==> !same_dest(#[trigger] items@[a], items@[i as int]),
            decreases i - j,
        {
            let a = &items[j];
            let b = &items[i];
            let same = match (a, b) {
                (TemplateDestination::StdOut, TemplateDestination::StdOut) => true,
                (TemplateDestination::FileSystem(p), TemplateDestination::FileSystem(q)) => str_eq(
                    p.as_str(),
                    q.as_str(),
                ),
                _ => false,
            };
            if same {
                proof {
                    assert(same_dest(items@[j as int], items@[i as int]));
                }
                return false;
            }
            proof {
                assert(!same_dest(items@[j as int], items@[i as int])) by {
                    reveal_strlit("-");
                }
            }
            j = j + 1;
        }
        i = i + 1;
    }
    true
}

/// Check a plan against the configuration rules: no two operations may
/// share a destination, and watch mode cannot serve a standard-output
/// destination.
pub fn validate_plan(plan: &Plan, watch_mode: bool) -> (r: Result<(), Error>)
    ensures
        ({
            let ops = plan.operations@;
            let unique = forall|i: int, j: int|
                0 <= i < j < ops.len() ==> !same_dest((#[trigger] ops[i]).dest, (#[trigger] ops[j]).dest);
            let watch_ok = watch_mode ==> forall|i: int|
                0 <= i < ops.len() ==> !((#[trigger] ops[i]).dest is StdOut);
            &&& (r is Ok) == (unique && watch_ok)
            &&& r matches Err(e) ==> e is Validation
        }),
{
    let mut dests: Vec<TemplateDestination> = Vec::new();
    let mut i: usize = 0;
    while i < plan.operations.len()
        invariant
            i <= plan.operations@.len(),
            dests@.len() == i,
            forall|j: int| 0 <= j < i ==> #[trigger] dests@[j] == plan.operations@[j].dest,
        decreases plan.operations@.len() - i,
    {
        let d = match &plan.operations[i].dest {
            TemplateDestination::StdOut => TemplateDestination::StdOut,
            TemplateDestination::FileSystem(p) => TemplateDestination::FileSystem(p.clone()),
        };
        proof {
            assert(same_dest(d, plan.operations@[i as int].dest) && d == plan.operations@[i as int].dest) by {
                reveal_strlit("-");
            }
        }
        dests.push(d);
        i = i + 1;
    }
    if !elements_are_unique(&dests) {
        return Err(Error::Validation(String::from_str("template destinations are not unique")));
    }
    if watch_mode {
        let mut k: usize = 0;
        while k < plan.operations.len()
            invariant
                watch_mode,
                k <= plan.operations@.len(),
                forall|j: int| 0 <= j < k ==> !((#[trigger] plan.operations@[j]).dest is StdOut),
            decreases plan.operations@.len() - k,
        {
            if plan.operations[k].dest.is_stdout() {
                proof {
                    assert((plan.operations@[k as int]).dest is StdOut);
                    assert(!(forall|i: int|
                        0 <= i < plan.operations@.len() ==> !((#[trigger] plan.operations@[i]).dest
                            is StdOut))) by {
                        if forall|i: int|
                            0 <= i < plan.operations@.len() ==> !((
                            #[trigger] plan.operations@[i]).dest is StdOut) {
                            assert(!((plan.operations@[k as int]).dest is StdOut));
                        }
                    }
                }
                return Err(
                    Error::Validation(
                        String::from_str("watch mode cannot template to standard output"),
                    ),
                );
            }
            k = k + 1;
        }
    }
    proof {
        assert forall|i: int, j: int|
            0 <= i < j < plan.operations@.len() implies !same_dest(
            (#[trigger] plan.operations@[i]).dest,
            (#[trigger] plan.operations@[j]).dest,
        ) by {
            assert(!same_dest(dests@[i], dests@[j]));
        }
    }
    Ok(())
}

/// Whether two byte strings hold the same bytes.
pub fn bytes_eq(a: &Vec<u8>, b: &Vec<u8>) -> (r: bool)
    ensures
        r == (a@ == b@),
{
    if a.len() != b.len() {
        proof {
            assert(a@ != b@);
        }
        return false;
    }
    let mut i: usize = 0;
    while i < a.len()
        invariant
            a@.len() == b@.len(),
            i <= a@.len(),
            forall|j: int| 0 <= j < i ==> a@[j] == b@[j],
        decreases a@.len() - i,
    {
        if a[i] != b[i] {
            return false;
        }
        i = i + 1;
    }
    proof {
        assert(a@ =~= b@);
    }
    true
}

} // verus!
