use vstd::prelude::*;
use crate::error::{KidurError, KidurResult};

verus! {

/// Declares `loro::LoroDoc`, a Loro CRDT document.
#[verifier::external_type_specification]
#[verifier::external_body]
pub struct ExLoroDoc(loro::LoroDoc);

/// The characters held by the text container of the given name in a Loro
/// document (empty for a container that was never written).
pub uninterp spec fn loro_text(doc: loro::LoroDoc, container: Seq<char>) -> Seq<char>;

/// The characters that the named text container holds in a fresh Loro
/// document after the given bytes are imported into it.
pub uninterp spec fn loro_snapshot_text(bytes: Seq<u8>, container: Seq<char>) -> Seq<char>;

/// Whether a fresh Loro document accepts the given bytes for import.
pub uninterp spec fn loro_import_ok(bytes: Seq<u8>) -> bool;

/// Whether a Loro document in the given state can be exported as a snapshot.
pub uninterp spec fn loro_export_ok(doc: loro::LoroDoc) -> bool;

/// Calls `loro::LoroDoc::new`: a fresh document, in which every text
/// container is empty.
#[verifier::external_body]
fn loro_new() -> (doc: loro::LoroDoc)
    ensures
        forall|c: Seq<char>| #[trigger] loro_text(doc, c) == Seq::<char>::empty(),
{
    loro::LoroDoc::new()
}

/// Calls `loro::LoroDoc::import` on a fresh document (`loro::LoroDoc::new`);
/// on success that document is returned, and on failure the error's text.
/// Whether the import succeeds is the named outcome for the bytes; what
/// makes it fail is left unsaid.
#[verifier::external_body]
fn loro_import_fresh(bytes: &[u8]) -> (r: Result<loro::LoroDoc, String>)
    ensures
        r is Ok <==> loro_import_ok(bytes@),
        r matches Ok(doc) ==> forall|c: Seq<char>| #[trigger] loro_text(doc, c) == loro_snapshot_text(bytes@, c),
{
    let doc = loro::LoroDoc::new();
    match doc.import(bytes) {
        Ok(_) => Ok(doc),
        Err(e) => Err(e.to_string()),
    }
}

/// Calls `loro::LoroDoc::export` with `ExportMode::Snapshot`: on success the
/// snapshot is accepted by a fresh document and imports back into it with
/// the same text in every container. Whether the export succeeds is the
/// named outcome for the document's state; what makes it fail is left unsaid.
#[verifier::external_body]
fn loro_export_snapshot(doc: &loro::LoroDoc) -> (r: Result<Vec<u8>, String>)
    ensures
        r is Ok <==> loro_export_ok(*doc),
        r matches Ok(b) ==> loro_import_ok(b@),
        r matches Ok(b) ==> forall|c: Seq<char>| #[trigger] loro_snapshot_text(b@, c) == loro_text(*doc, c),
{
    doc.export(loro::ExportMode::Snapshot).map_err(|e| e.to_string())
}

/// Calls `to_string` on `loro::LoroDoc::get_text` of the named container.
/// Only the document's own text container is accepted: `get_text` panics on
/// a container name that the document cannot create.
#[verifier::external_body]
fn loro_get_text(doc: &loro::LoroDoc, container: &str) -> (s: String)
    requires
        container@ == content_container(),
    ensures
        s@ == loro_text(*doc, container@),
{
    doc.get_text(container).to_string()
}

/// Calls `loro::LoroText::insert` (a position counted in characters) on the
/// named container. A position past the end is refused and any other
/// succeeds; on success the text is inserted there and the other containers
/// keep their text. The text after a refusal is left unsaid. Only the
/// document's own text container is accepted, as for `loro_get_text`.
#[verifier::external_body]
fn loro_insert(doc: &mut loro::LoroDoc, container: &str, pos: usize, text: &str) -> (r: Result<(), String>)
    requires
        container@ == content_container(),
    ensures
        r is Err <==> pos > loro_text(*old(doc), container@).len(),
        r is Ok ==> loro_text(*final(doc), container@) == loro_text(*old(doc), container@).take(pos as int) + text@
            + loro_text(*old(doc), container@).skip(pos as int),
        r is Ok ==> forall|c: Seq<char>| c != container@ ==> #[trigger] loro_text(*final(doc), c) == loro_text(*old(doc), c),
{
    doc.get_text(container).insert(pos, text).map_err(|e| e.to_string())
}

/// Calls `loro::LoroText::delete` (position and length counted in
/// characters) on the named container. Deleting nothing always succeeds and
/// changes nothing; a range past the end is refused and any other succeeds;
/// on success the range is removed and the other containers keep their text.
/// The text after a refusal is left unsaid. Only the document's own text
/// container is accepted, as for `loro_get_text`.
#[verifier::external_body]
fn loro_delete(doc: &mut loro::LoroDoc, container: &str, pos: usize, len: usize) -> (r: Result<(), String>)
    requires
        container@ == content_container(),
    ensures
        len == 0 ==> r is Ok && forall|c: Seq<char>| #[trigger] loro_text(*final(doc), c) == loro_text(*old(doc), c),
        r is Err <==> (len > 0 && pos + len > loro_text(*old(doc), container@).len()),
        r is Ok ==> loro_text(*final(doc), container@) == loro_text(*old(doc), container@).take(pos as int)
            + loro_text(*old(doc), container@).skip(pos + len),
        r is Ok ==> forall|c: Seq<char>| c != container@ ==> #[trigger] loro_text(*final(doc), c) == loro_text(*old(doc), c),
{
    doc.get_text(container).delete(pos, len).map_err(|e| e.to_string())
}

/// The text of a document that has the given characters inserted at `pos`.
pub open spec fn text_inserted(t: Seq<char>, pos: int, s: Seq<char>) -> Seq<char> {
    t.take(pos) + s + t.skip(pos)
}

/// The text of a document that has `len` characters deleted from `pos`.
pub open spec fn text_deleted(t: Seq<char>, pos: int, len: int) -> Seq<char> {
    t.take(pos) + t.skip(pos + len)
}

/// Deleting what was just inserted restores the text.
pub proof fn lemma_delete_undoes_insert(t: Seq<char>, pos: int, s: Seq<char>)
    requires
        0 <= pos <= t.len(),
    ensures
        text_deleted(text_inserted(t, pos, s), pos, s.len() as int) == t,
{
    let u = text_inserted(t, pos, s);
    assert(u.take(pos) =~= t.take(pos));
    assert(u.skip(pos + s.len()) =~= t.skip(pos));
    assert(t.take(pos) + t.skip(pos) =~= t);
}

/// A CRDT document holding one text.
pub trait CrdtDoc: Send + Sync + Sized {
    /// The current text.
    spec fn text_state(&self) -> Seq<char>;

    /// The text that importing the given snapshot yields.
    spec fn snapshot_state(bytes: Seq<u8>) -> Seq<char>;

    /// Exports the whole document as a snapshot.
    fn export_snapshot(&self) -> (r: KidurResult<Vec<u8>>)
        ensures
            r matches Ok(b) ==> Self::snapshot_state(b@) == self.text_state(),
            r is Err ==> r matches Err(KidurError::Crdt(_)),
    ;

    /// Replaces the document's state with the snapshot's.
    fn import_snapshot(&mut self, bytes: &[u8]) -> (r: KidurResult<()>)
        ensures
            r is Ok ==> final(self).text_state() == Self::snapshot_state(bytes@),
            r is Err ==> (r matches Err(KidurError::Crdt(_)) && final(self).text_state() == old(self).text_state()),
    ;

    /// The current text.
    fn get_text(&self) -> (r: KidurResult<String>)
        ensures
            r matches Ok(s) && s@ == self.text_state(),
    ;

    /// Inserts text at a character position.
    fn insert_text(&mut self, pos: usize, text: &str) -> (r: KidurResult<()>)
        ensures
            pos > old(self).text_state().len() ==> r matches Err(KidurError::Crdt(_)),
            r is Ok ==> final(self).text_state() == text_inserted(old(self).text_state(), pos as int, text@),
            r is Err ==> r matches Err(KidurError::Crdt(_)),
    ;

    /// Deletes `len` characters from a character position.
    fn delete_text(&mut self, pos: usize, len: usize) -> (r: KidurResult<()>)
        ensures
            len == 0 ==> r is Ok && final(self).text_state() == old(self).text_state(),
            len > 0 && pos + len > old(self).text_state().len() ==> r matches Err(KidurError::Crdt(_)),
            r is Ok ==> final(self).text_state() == text_deleted(old(self).text_state(), pos as int, len as int),
            r is Err ==> r matches Err(KidurError::Crdt(_)),
    ;
}

/// A snapshot carries the text across: a document restored from the bytes
/// that another document exported holds that document's text.
pub proof fn lemma_snapshot_roundtrip<D: CrdtDoc>(exported_from: D, bytes: Seq<u8>, restored: D)
    requires
        D::snapshot_state(bytes) == exported_from.text_state(),
        restored.text_state() == D::snapshot_state(bytes),
    ensures
        restored.text_state() == exported_from.text_state(),
{
}

/// A CRDT document backed by Loro; its text lives in the container "content".
pub struct LoroCrdtDoc {
    doc: loro::LoroDoc,
}

/// The name of the text container that holds a document's text.
pub open spec fn content_container() -> Seq<char> {
    "content"@
}

fn text_container() -> (s: &'static str)
    ensures
        s@ == content_container(),
{
    "content"
}

/// Whether Loro accepts the bytes as a snapshot to restore a document from.
pub open spec fn snapshot_accepted(bytes: Seq<u8>) -> bool {
    loro_import_ok(bytes)
}

impl LoroCrdtDoc {
    /// Whether the document in its current state can be exported.
    pub closed spec fn export_ok(&self) -> bool {
        loro_export_ok(self.doc)
    }

    /// A fresh, empty document.
    pub fn new() -> (d: Self)
        ensures
            d.text_state() == Seq::<char>::empty(),
    {
        let doc = loro_new();
        assert(loro_text(doc, content_container()) == Seq::<char>::empty());
        LoroCrdtDoc { doc }
    }

    /// A document restored from a previously exported snapshot.
    pub fn from_snapshot(bytes: &[u8]) -> (r: KidurResult<Self>)
        ensures
            r is Ok <==> snapshot_accepted(bytes@),
            r matches Ok(d) ==> d.text_state() == Self::snapshot_state(bytes@),
            r is Err ==> r matches Err(KidurError::Crdt(_)),
    {
        match loro_import_fresh(bytes) {
            Ok(doc) => {
                assert(loro_text(doc, content_container()) == loro_snapshot_text(bytes@, content_container()));
                Ok(LoroCrdtDoc { doc })
            },
            Err(msg) => Err(KidurError::Crdt(msg)),
        }
    }
}

impl Default for LoroCrdtDoc {
    fn default() -> (d: Self)
        ensures
            d.text_state() == Seq::<char>::empty(),
    {
        LoroCrdtDoc::new()
    }
}

impl CrdtDoc for LoroCrdtDoc {
    closed spec fn text_state(&self) -> Seq<char> {
        loro_text(self.doc, content_container())
    }

    open spec fn snapshot_state(bytes: Seq<u8>) -> Seq<char> {
        loro_snapshot_text(bytes, content_container())
    }

    fn export_snapshot(&self) -> (r: KidurResult<Vec<u8>>)
        ensures
            r is Ok <==> self.export_ok(),
            r matches Ok(b) ==> snapshot_accepted(b@),
    {
        match loro_export_snapshot(&self.doc) {
            Ok(b) => {
                assert(loro_snapshot_text(b@, content_container()) == loro_text(self.doc, content_container()));
                Ok(b)
            },
            Err(msg) => Err(KidurError::Crdt(msg)),
        }
    }

    fn import_snapshot(&mut self, bytes: &[u8]) -> (r: KidurResult<()>)
        ensures
            r is Ok <==> snapshot_accepted(bytes@),
            r is Err ==> *final(self) == *old(self),
    {
        match loro_import_fresh(bytes) {
            Ok(doc) => {
                assert(loro_text(doc, content_container()) == loro_snapshot_text(bytes@, content_container()));
                self.doc = doc;
                Ok(())
            },
            Err(msg) => Err(KidurError::Crdt(msg)),
        }
    }

    fn get_text(&self) -> (r: KidurResult<String>) {
        Ok(loro_get_text(&self.doc, text_container()))
    }

    fn insert_text(&mut self, pos: usize, text: &str) -> (r: KidurResult<()>)
        ensures
            pos <= old(self).text_state().len() ==> r is Ok,
    {
        match loro_insert(&mut self.doc, text_container(), pos, text) {
            Ok(()) => Ok(()),
            Err(msg) => Err(KidurError::Crdt(msg)),
        }
    }

    fn delete_text(&mut self, pos: usize, len: usize) -> (r: KidurResult<()>)
        ensures
            pos + len <= old(self).text_state().len() ==> r is Ok,
    {
        match loro_delete(&mut self.doc, text_container(), pos, len) {
            Ok(()) => Ok(()),
            Err(msg) => Err(KidurError::Crdt(msg)),
        }
    }
}

} // verus!
