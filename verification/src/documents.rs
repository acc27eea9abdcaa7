//! Importing documents into the knowledge base: which files are accepted,
//! the name each copy gets, and the record stored for it.
//!
//! Each file of a selection is judged on its own: one bad file never throws
//! away the good ones, and every refused file comes back with its reason.

use vstd::prelude::*;
use crate::stamp::{new_id, now_rfc3339};
use crate::text::{
    ascii_lower, concat, decimal, eq_ignore_ascii_case, extension_of, file_extension, file_stem, file_stem_of, owned, push_str,
    str_eq, str_eq_ignore_ascii_case, u64_to_decimal,
};

verus! {

/// Documents are copied into the base folder and embedded, so very large
/// files are refused early.
pub const MAX_FILE_BYTES: u64 = 100 * 1024 * 1024;

/// The status a freshly imported document starts in.
pub const QUEUED: &'static str = "queued";

pub const UNSUPPORTED: &'static str = "formato não suportado. Aceitos: PDF, DOCX, TXT, MD";

pub const NOT_FOUND: &'static str = "Documento não encontrado";

/// A document of the knowledge base.
#[derive(Debug)]
pub struct DocumentRecord {
    pub id: String,
    pub filename: String,
    pub file_path: String,
    pub size_bytes: u64,
    pub status: String,
    pub error_message: Option<String>,
    pub created_at: String,
    pub updated_at: String,
}

/// A file the import refused, with the reason shown next to its name.
#[derive(Debug)]
pub struct RejectedImport {
    pub path: String,
    pub reason: String,
}

/// The outcome of importing a selection of files.
#[derive(Debug)]
pub struct ImportResult {
    pub imported: Vec<DocumentRecord>,
    pub rejected: Vec<RejectedImport>,
}

/// Whether a file name has one of the accepted extensions: PDF, DOCX, TXT
/// or MD, in any case.
pub open spec fn is_supported_name(name: Seq<char>) -> bool {
    match extension_of(name) {
        Some(e) => eq_ignore_ascii_case(e, "pdf"@) || eq_ignore_ascii_case(e, "docx"@)
            || eq_ignore_ascii_case(e, "txt"@) || eq_ignore_ascii_case(e, "md"@),
        None => false,
    }
}

/// Comparing ignoring ASCII case with a lowercase word is comparing the
/// lowercased text with it.
proof fn lemma_lowered_equals(e: Seq<char>, word: Seq<char>)
    requires
        forall|i: int| 0 <= i < word.len() ==> ascii_lower(#[trigger] word[i]) == word[i],
    ensures
        eq_ignore_ascii_case(e, word) <==> e.map_values(|c: char| ascii_lower(c)) == word,
{
    let lowered = e.map_values(|c: char| ascii_lower(c));
    if eq_ignore_ascii_case(e, word) {
        assert(lowered =~= word);
    }
    if lowered == word {
        assert forall|i: int| 0 <= i < e.len() implies ascii_lower(#[trigger] e[i]) == ascii_lower(word[i]) by {
            assert(lowered[i] == ascii_lower(e[i]));
        }
    }
}

/// A file is accepted exactly when it has an extension that, lowercased, is
/// `pdf`, `docx`, `txt` or `md`.
pub proof fn lemma_accepted_formats(name: Seq<char>)
    ensures
        is_supported_name(name) <==> (extension_of(name) matches Some(e) && {
            let lowered = e.map_values(|c: char| ascii_lower(c));
            lowered == "pdf"@ || lowered == "docx"@ || lowered == "txt"@ || lowered == "md"@
        }),
{
    reveal_strlit("pdf");
    reveal_strlit("docx");
    reveal_strlit("txt");
    reveal_strlit("md");
    if let Some(e) = extension_of(name) {
        lemma_lowered_equals(e, "pdf"@);
        lemma_lowered_equals(e, "docx"@);
        lemma_lowered_equals(e, "txt"@);
        lemma_lowered_equals(e, "md"@);
    }
}

pub fn is_supported(file_name: &str) -> (b: bool)
    ensures
        b == is_supported_name(file_name@),
{
    match file_extension(file_name) {
        Some(e) => str_eq_ignore_ascii_case(e.as_str(), "pdf") || str_eq_ignore_ascii_case(e.as_str(), "docx")
            || str_eq_ignore_ascii_case(e.as_str(), "txt") || str_eq_ignore_ascii_case(e.as_str(), "md"),
        None => false,
    }
}

/// Why a file was refused.
#[derive(Debug)]
pub enum Refusal {
    /// Not one of the accepted formats.
    Unsupported,
    /// Its size could not be read, with the reason.
    Unreadable(String),
    /// Larger than the limit, with its size in bytes.
    TooLarge(u64),
}

/// Judges one selected file from its file name (none when the path names no
/// file) and its size (or why the size could not be read): the format first,
/// then the size. An accepted file keeps its name.
pub fn check_import(file_name: Option<String>, size: Result<u64, String>) -> (r: Result<String, Refusal>)
    ensures
        match file_name {
            None => r matches Err(Refusal::Unsupported),
            Some(n) => if !is_supported_name(n@) {
                r matches Err(Refusal::Unsupported)
            } else {
                match size {
                    Err(e) => r matches Err(Refusal::Unreadable(m)) && m@ == e@,
                    Ok(s) => if s > MAX_FILE_BYTES {
                        r matches Err(Refusal::TooLarge(x)) && x == s
                    } else {
                        r matches Ok(k) && k@ == n@
                    },
                }
            },
        },
{
    let name = match file_name {
        Some(n) => n,
        None => return Err(Refusal::Unsupported),
    };
    if !is_supported(name.as_str()) {
        return Err(Refusal::Unsupported);
    }
    match size {
        Err(e) => Err(Refusal::Unreadable(e)),
        Ok(s) => {
            if s > MAX_FILE_BYTES {
                Err(Refusal::TooLarge(s))
            } else {
                Ok(name)
            }
        },
    }
}

/// The reason shown for a refusal that needs no number formatting.
pub fn refusal_reason(r: &Refusal) -> (m: Option<String>)
    ensures
        match r {
            Refusal::Unsupported => m matches Some(x) && x@ == UNSUPPORTED@,
            Refusal::Unreadable(e) => m matches Some(x) && x@ == e@,
            Refusal::TooLarge(_) => m is None,
        },
{
    match r {
        Refusal::Unsupported => Some(owned(UNSUPPORTED)),
        Refusal::Unreadable(e) => Some(e.clone()),
        Refusal::TooLarge(_) => None,
    }
}

/// The stem a copy is renamed from, and the dotted extension kept after the
/// counter.
pub open spec fn dotted_extension(name: Seq<char>) -> Seq<char> {
    match extension_of(name) {
        Some(e) => "."@ + e,
        None => Seq::empty(),
    }
}

/// The `n`-th alternative name for a file whose name is taken:
/// `stem (n).ext`.
pub open spec fn numbered_name(name: Seq<char>, n: nat) -> Seq<char> {
    file_stem_of(name) + " ("@ + decimal(n) + ")"@ + dotted_extension(name)
}

fn dotted(name: &str) -> (e: String)
    ensures
        e@ == dotted_extension(name@),
{
    match file_extension(name) {
        Some(x) => concat(".", x.as_str()),
        None => String::new(),
    }
}

/// The alternative name tried for the `n`-th copy of `name`.
pub fn numbered_copy_name(name: &str, n: u64) -> (r: String)
    ensures
        r@ == numbered_name(name@, n as nat),
{
    let mut r = file_stem(name);
    push_str(&mut r, " (");
    let digits = u64_to_decimal(n);
    push_str(&mut r, digits.as_str());
    push_str(&mut r, ")");
    let ext = dotted(name);
    push_str(&mut r, ext.as_str());
    r
}

/// The last resort when the numbered names run out: the stem, a fresh
/// identifier, and the extension.
pub fn unique_copy_name(name: &str) -> (r: String)
    ensures
        exists|id: Seq<char>| id.len() == 36 && r@ == file_stem_of(name@) + "-"@ + id + dotted_extension(name@),
{
    let id = new_id();
    let mut r = file_stem(name);
    push_str(&mut r, "-");
    push_str(&mut r, id.as_str());
    let ext = dotted(name);
    push_str(&mut r, ext.as_str());
    r
}

/// Numbered names are tried from 2 up to 999 before the last resort.
pub const FIRST_COPY_NUMBER: u64 = 2;

pub const LAST_COPY_NUMBER: u64 = 999;

/// The name to try for a copy of `name` once `taken` earlier tries were
/// found taken: the file's own name first, then numbered copies from
/// `FIRST_COPY_NUMBER` to `LAST_COPY_NUMBER`; `None` once all are taken.
pub open spec fn name_to_try(name: Seq<char>, taken: nat) -> Option<Seq<char>> {
    if taken == 0 {
        Some(name)
    } else if taken + FIRST_COPY_NUMBER - 1 <= LAST_COPY_NUMBER {
        Some(numbered_name(name, (taken + FIRST_COPY_NUMBER - 1) as nat))
    } else {
        None
    }
}

/// The next destination name to look for on disk; where it returns `None`
/// the copy gets `unique_copy_name`.
pub fn copy_name_to_try(name: &str, taken: u64) -> (r: Option<String>)
    ensures
        match name_to_try(name@, taken as nat) {
            Some(n) => r matches Some(s) && s@ == n,
            None => r is None,
        },
{
    if taken == 0 {
        Some(owned(name))
    } else if taken <= LAST_COPY_NUMBER - FIRST_COPY_NUMBER + 1 {
        Some(numbered_copy_name(name, taken + FIRST_COPY_NUMBER - 1))
    } else {
        None
    }
}

/// The record stored for a document that was copied to `file_path`: a fresh
/// identifier, queued for processing, stamped now.
pub fn new_document(filename: String, file_path: String, size_bytes: u64) -> (d: DocumentRecord)
    ensures
        d.filename@ == filename@,
        d.file_path@ == file_path@,
        d.size_bytes == size_bytes,
        d.status@ == QUEUED@,
        d.error_message is None,
        d.id@.len() == 36,
        d.created_at@ == d.updated_at@,
{
    let now = now_rfc3339();
    DocumentRecord {
        id: new_id(),
        filename,
        file_path,
        size_bytes,
        status: owned(QUEUED),
        error_message: None,
        created_at: now.clone(),
        updated_at: now,
    }
}

/// The statuses a document passes through before it is done; a document
/// left in one of them when the app stopped is processed again.
pub open spec fn is_unfinished_status(s: Seq<char>) -> bool {
    s == "queued"@ || s == "parsing"@ || s == "chunking"@ || s == "embedding"@
}

pub fn is_unfinished(status: &str) -> (b: bool)
    ensures
        b == is_unfinished_status(status@),
{
    str_eq(status, "queued") || str_eq(status, "parsing") || str_eq(status, "chunking") || str_eq(status, "embedding")
}

/// A delete that removed no row means the document did not exist.
pub fn deletion_result(deleted_rows: u64) -> (r: Result<(), String>)
    ensures
        deleted_rows == 0 ==> (r matches Err(e) && e@ == NOT_FOUND@),
        deleted_rows > 0 ==> r is Ok,
{
    if deleted_rows == 0 {
        Err(owned(NOT_FOUND))
    } else {
        Ok(())
    }
}

/// Only PDFs need the PDF reader, so importing a text file never downloads
/// it.
pub fn needs_pdf_reader(file_name: &str) -> (b: bool)
    ensures
        b == (extension_of(file_name@) matches Some(e) && eq_ignore_ascii_case(e, "pdf"@)),
{
    match file_extension(file_name) {
        Some(e) => str_eq_ignore_ascii_case(e.as_str(), "pdf"),
        None => false,
    }
}

/// The text of a PDF: every page's text followed by a line break.
pub open spec fn pages_text(pages: Seq<Seq<char>>) -> Seq<char>
    decreases pages.len(),
{
    if pages.len() == 0 {
        Seq::empty()
    } else {
        pages_text(pages.drop_last()) + pages.last() + "\n"@
    }
}

pub fn join_pages(pages: &[String]) -> (text: String)
    ensures
        text@ == pages_text(crate::text::views(pages@)),
{
    let mut out = String::new();
    let mut i: usize = 0;
    assert(crate::text::views(pages@).take(0) =~= Seq::<Seq<char>>::empty());
    while i < pages.len()
        invariant
            i <= pages@.len(),
            out@ == pages_text(crate::text::views(pages@).take(i as int)),
        decreases pages@.len() - i,
    {
        proof {
            assert(crate::text::views(pages@).take(i + 1).drop_last() =~= crate::text::views(pages@).take(i as int));
            assert(crate::text::views(pages@).take(i + 1).last() == pages@[i as int]@);
        }
        push_str(&mut out, pages[i].as_str());
        push_str(&mut out, "\n");
        i = i + 1;
    }
    assert(crate::text::views(pages@).take(pages@.len() as int) =~= crate::text::views(pages@));
    out
}

} // verus!
