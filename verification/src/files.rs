//! The file table: one entry per input file, holding the original path, the
//! source text and the parsed syntax tree, indexed by a dense per-file id.
//! Construction merges each file's parser diagnostics into the shared sink.

use vstd::prelude::*;
use crate::ast::SourceFile;
use crate::diagnostics::{DatamodelError, DiagnosticKind, Diagnostics, FileId, Span};

verus! {

/// One input file and what the parser made of it.
#[derive(Debug)]
pub struct FileEntry {
    pub path: String,
    pub source: SourceFile,
}

/// All input files, in input order. Immutable once constructed.
#[derive(Debug)]
pub struct Files {
    pub entries: Vec<FileEntry>,
}

/// A syntax error of the external parser, attributed to its file.
pub open spec fn syntax_err(fid: FileId, sp: Span) -> DatamodelError {
    DatamodelError { file_id: fid, span: sp, kind: DiagnosticKind::SyntaxError }
}

/// The first `j` syntax diagnostics of one file, in reported order.
pub open spec fn file_syntax_diags(fid: FileId, spans: Seq<Span>, j: int) -> Seq<DatamodelError>
    decreases j,
{
    if j <= 0 {
        Seq::empty()
    } else {
        file_syntax_diags(fid, spans, j - 1).push(syntax_err(fid, spans[j - 1]))
    }
}

/// The syntax diagnostics of the first `k` input files, in input order.
pub open spec fn all_syntax_diags(schemas: Seq<(String, SourceFile)>, k: int) -> Seq<DatamodelError>
    decreases k,
{
    if k <= 0 {
        Seq::empty()
    } else {
        all_syntax_diags(schemas, k - 1) + file_syntax_diags(
            FileId((k - 1) as usize),
            schemas[k - 1].1.parse_errors@,
            schemas[k - 1].1.parse_errors@.len() as int,
        )
    }
}

/// Every diagnostic the parser merge records is a syntax error.
pub proof fn lemma_syntax_diags_kinds(schemas: Seq<(String, SourceFile)>, k: int)
    ensures
        forall|q: int|
            0 <= q < all_syntax_diags(schemas, k).len() ==> (#[trigger] all_syntax_diags(
                schemas,
                k,
            )[q]).kind is SyntaxError,
    decreases k,
{
    if k > 0 {
        lemma_syntax_diags_kinds(schemas, k - 1);
        let fid = FileId((k - 1) as usize);
        let spans = schemas[k - 1].1.parse_errors@;
        lemma_file_syntax_diags_kinds(fid, spans, spans.len() as int);
        assert forall|q: int|
            0 <= q < all_syntax_diags(schemas, k).len() implies (#[trigger] all_syntax_diags(
            schemas,
            k,
        )[q]).kind is SyntaxError by {
            if q < all_syntax_diags(schemas, k - 1).len() {
                assert(all_syntax_diags(schemas, k)[q] == all_syntax_diags(schemas, k - 1)[q]);
            } else {
                assert(all_syntax_diags(schemas, k)[q] == file_syntax_diags(
                    fid,
                    spans,
                    spans.len() as int,
                )[q - all_syntax_diags(schemas, k - 1).len()]);
            }
        }
    }
}

pub proof fn lemma_file_syntax_diags_kinds(fid: FileId, spans: Seq<Span>, j: int)
    ensures
        forall|q: int|
            0 <= q < file_syntax_diags(fid, spans, j).len() ==> (#[trigger] file_syntax_diags(
                fid,
                spans,
                j,
            )[q]).kind is SyntaxError,
    decreases j,
{
    if j > 0 {
        lemma_file_syntax_diags_kinds(fid, spans, j - 1);
    }
}

impl Files {
    /// Build the table from the input files, in input order, and merge every
    /// file's syntax diagnostics into the sink, also in input order.
    pub fn new(schemas: Vec<(String, SourceFile)>, diagnostics: &mut Diagnostics) -> (r: Files)
        ensures
            r.entries@.len() == schemas@.len(),
            forall|i: int| 0 <= i < schemas@.len() ==> #[trigger] r.entries@[i].path == schemas@[i].0
                && r.entries@[i].source == schemas@[i].1,
            final(diagnostics)@ == old(diagnostics)@ + all_syntax_diags(
                schemas@,
                schemas@.len() as int,
            ),
    {
        let ghost orig = schemas@;
        let mut schemas = schemas;
        let mut entries: Vec<FileEntry> = Vec::new();
        while schemas.len() > 0
            invariant
                entries@.len() + schemas@.len() == orig.len(),
                schemas@ == orig.skip(entries@.len() as int),
                forall|i: int| 0 <= i < entries@.len() ==> #[trigger] entries@[i].path == orig[i].0
                    && entries@[i].source == orig[i].1,
                diagnostics@ == old(diagnostics)@ + all_syntax_diags(orig, entries@.len() as int),
            decreases schemas@.len(),
        {
            let ghost i = entries@.len() as int;
            proof {
                assert(schemas@[0] == orig[i]);
            }
            let (path, source) = schemas.remove(0);
            let fid = FileId(entries.len());
            let ghost spans = orig[i].1.parse_errors@;
            let mut j: usize = 0;
            while j < source.parse_errors.len()
                invariant
                    source == orig[i].1,
                    fid == FileId(i as usize),
                    j <= spans.len(),
                    source.parse_errors@ == spans,
                    diagnostics@ == old(diagnostics)@ + all_syntax_diags(orig, i)
                        + file_syntax_diags(fid, spans, j as int),
                decreases spans.len() - j,
            {
                let sp = source.parse_errors[j];
                diagnostics.push(DatamodelError { file_id: fid, span: sp, kind: DiagnosticKind::SyntaxError });
                j += 1;
            }
            entries.push(FileEntry { path, source });
            proof {
                assert(schemas@ =~= orig.skip(entries@.len() as int));
                assert(diagnostics@ =~= old(diagnostics)@ + all_syntax_diags(
                    orig,
                    entries@.len() as int,
                ));
            }
        }
        proof {
            assert(entries@.len() == orig.len());
        }
        Files { entries }
    }

    /// How many files the table holds.
    pub fn len(&self) -> (r: usize)
        ensures
            r == self.entries@.len(),
    {
        self.entries.len()
    }

    /// The entry of one file id.
    pub fn entry(&self, file_id: FileId) -> (r: &FileEntry)
        requires
            file_id.0 < self.entries@.len(),
        ensures
            *r == self.entries@[file_id.0 as int],
    {
        &self.entries[file_id.0]
    }
}

} // verus!
