//! The boundary to the `lopdf` document library.
//!
//! What is marked as such below is believed, not proved: each such function
//! makes one call into `lopdf` (or builds one of its values) and states, over
//! the model, what that call does. The rest of the library is proved against
//! these statements.

use vstd::prelude::*;

verus! {

/// `lopdf::Document`, a document in memory.
#[verifier::external_type_specification]
#[verifier::external_body]
pub struct ExDocument(lopdf::Document);

/// `lopdf::Object`, one object of a document.
#[verifier::external_type_specification]
#[verifier::external_body]
pub struct ExObject(lopdf::Object);

/// `lopdf::Dictionary`, a dictionary object.
#[verifier::external_type_specification]
#[verifier::external_body]
pub struct ExDictionary(lopdf::Dictionary);

/// `lopdf::Error`, what a call into the library fails with.
#[verifier::external_type_specification]
#[verifier::external_body]
pub struct ExError(lopdf::Error);

/// What one document object holds, as far as this library reads it.
pub enum Node {
    /// A whole number.
    Integer(i64),
    /// A real number, by the decimal text that stands for its value.
    Real(Seq<u8>),
    /// A name, without its slash.
    Name(Seq<u8>),
    /// A string, by its bytes, whichever way it was written.
    Text(Seq<u8>),
    Array(Seq<Node>),
    Dict(Map<Seq<u8>, Node>),
    /// A reference to the object with this number and generation.
    Reference((u32, u16)),
    /// Null, a boolean or a stream.
    Other,
}

/// What an object holds.
pub uninterp spec fn node_of(obj: lopdf::Object) -> Node;

/// The entries of a dictionary.
pub uninterp spec fn dict_entries(dict: lopdf::Dictionary) -> Map<Seq<u8>, Node>;

/// The indirect objects of a document, by number and generation.
pub uninterp spec fn doc_objects(doc: lopdf::Document) -> Map<(u32, u16), Node>;

/// The highest object number that a document has given out.
pub uninterp spec fn doc_max_id(doc: lopdf::Document) -> u32;

/// The pages of a document in reading order, each by the number and
/// generation of its object.
pub uninterp spec fn doc_page_ids(doc: lopdf::Document) -> Seq<(u32, u16)>;

/// How many of the pages get a page number: all that a page number can count.
pub open spec fn numbered_len(ids: Seq<(u32, u16)>) -> nat {
    if ids.len() > u32::MAX {
        u32::MAX as nat
    } else {
        ids.len()
    }
}

/// The pages with their page numbers, which count from one in reading order.
pub open spec fn numbered(ids: Seq<(u32, u16)>) -> Seq<(u32, (u32, u16))> {
    Seq::new(numbered_len(ids), |i: int| ((i + 1) as u32, ids[i]))
}

/// The pages of a document in reading order, each with its page number and
/// the number and generation of its object.
pub open spec fn doc_pages(doc: lopdf::Document) -> Seq<(u32, (u32, u16))> {
    numbered(doc_page_ids(doc))
}

/// The document is one that the bytes of a file read as.
pub uninterp spec fn reads_as(bytes: Seq<u8>, doc: lopdf::Document) -> bool;

/// The bytes of a document as a file; nothing where the document cannot be
/// put into bytes.
pub uninterp spec fn document_bytes(doc: lopdf::Document) -> Option<Seq<u8>>;

/// The decimal text of the real number that a document stores for a given
/// decimal text (reals have single precision).
pub uninterp spec fn stored_real_text(text: Seq<char>) -> Seq<u8>;

/// The text that a byte string decodes to, bytes that are no UTF-8 replaced.
pub uninterp spec fn lossy_text(bytes: Seq<u8>) -> Seq<char>;

/// What the objects of a list hold, one by one.
pub open spec fn nodes_of(items: Seq<lopdf::Object>) -> Seq<Node> {
    items.map_values(|item: lopdf::Object| node_of(item))
}

/// How many references a lookup follows before it gives up.
pub const DEREF_LIMIT: u32 = 128;

/// Where a lookup that starts at `at` ends, and what it finds there: it
/// follows references from object to object, and fails on a missing object
/// or after `DEREF_LIMIT` references.
pub open spec fn chase(objects: Map<(u32, u16), Node>, at: (u32, u16), hops: nat) -> Option<
    ((u32, u16), Node),
>
    decreases DEREF_LIMIT - hops,
{
    if !objects.contains_key(at) {
        None
    } else {
        match objects[at] {
            Node::Reference(next) => if hops >= DEREF_LIMIT {
                None
            } else {
                chase(objects, next, hops + 1)
            },
            node => Some((at, node)),
        }
    }
}

/// What a lookup of `id` finds.
pub open spec fn resolve(objects: Map<(u32, u16), Node>, id: (u32, u16)) -> Option<Node> {
    match chase(objects, id, 0) {
        Some((_, node)) => Some(node),
        None => None,
    }
}

/// The object that a lookup of `id` ends at.
pub open spec fn resolve_id(objects: Map<(u32, u16), Node>, id: (u32, u16)) -> Option<(u32, u16)> {
    match chase(objects, id, 0) {
        Some((at, _)) => Some(at),
        None => None,
    }
}

/// `lopdf::Document::load_mem`: reads a document from the bytes of a file.
/// All that is claimed is that the document is one that the bytes read as:
/// the reading mends damaged files in ways that need not come out the same
/// each time, so the bytes do not name the document.
#[verifier::external_body]
pub(crate) fn parse_document(bytes: &[u8]) -> (r: Result<lopdf::Document, lopdf::Error>)
    ensures
        r matches Ok(doc) ==> reads_as(bytes@, doc),
{
    lopdf::Document::load_mem(bytes)
}

/// `ToString::to_string` on `lopdf::Error`: the message of an error. Nothing
/// is claimed of the text.
#[verifier::external_body]
pub(crate) fn error_text(error: &lopdf::Error) -> (r: String) {
    error.to_string()
}

/// `lopdf::Document::page_iter`: the pages in reading order, taken from the
/// iterator one by one.
#[verifier::external_body]
pub(crate) fn page_ids(doc: &lopdf::Document) -> (r: Vec<(u32, u16)>)
    ensures
        r@ == doc_page_ids(*doc),
{
    let mut out = Vec::new();
    for id in doc.page_iter() {
        out.push(id);
    }
    out
}

/// The pages of a document with their page numbers. This function is proved,
/// as is all of the library but the boundary.
pub(crate) fn page_list(doc: &lopdf::Document) -> (r: Vec<(u32, (u32, u16))>)
    ensures
        r@ == doc_pages(*doc),
        forall|i: int| 0 <= i < r@.len() ==> (#[trigger] r@[i]).0 == i + 1,
{
    let ids = page_ids(doc);
    let mut out: Vec<(u32, (u32, u16))> = Vec::new();
    let mut i: usize = 0;
    while i < ids.len() && i < u32::MAX as usize
        invariant
            0 <= i <= ids@.len(),
            i <= u32::MAX,
            out@.len() == i,
            forall|k: int| 0 <= k < i ==> out@[k] == ((k + 1) as u32, ids@[k]),
        decreases ids.len() - i,
    {
        out.push(((i + 1) as u32, ids[i]));
        i = i + 1;
    }
    assert(out@ =~= numbered(ids@));
    out
}

/// `lopdf::Document::get_object`: the object with the given number, references
/// followed as `chase` says.
#[verifier::external_body]
pub(crate) fn lookup(doc: &lopdf::Document, id: (u32, u16)) -> (r: Option<&lopdf::Object>)
    ensures
        match resolve(doc_objects(*doc), id) {
            Some(node) => r is Some && node_of(*r.unwrap()) == node,
            None => r is None,
        },
{
    doc.get_object(id).ok()
}

/// `BTreeMap::get` on `lopdf::Document::objects`: the object stored under the
/// given number itself, no reference followed.
#[verifier::external_body]
pub(crate) fn object_at(doc: &lopdf::Document, id: (u32, u16)) -> (r: Option<&lopdf::Object>)
    ensures
        match r {
            Some(obj) => doc_objects(*doc).contains_key(id) && node_of(*obj) == doc_objects(
                *doc,
            )[id],
            None => !doc_objects(*doc).contains_key(id),
        },
{
    doc.objects.get(&id)
}

/// The field `lopdf::Document::max_id`: the highest object number that the
/// document has given out.
#[verifier::external_body]
pub(crate) fn max_id(doc: &lopdf::Document) -> (r: u32)
    ensures
        r == doc_max_id(*doc),
{
    doc.max_id
}

/// `lopdf::Object::as_dict`: the dictionary, where the object is one.
#[verifier::external_body]
pub(crate) fn as_dictionary(obj: &lopdf::Object) -> (r: Option<&lopdf::Dictionary>)
    ensures
        match node_of(*obj) {
            Node::Dict(entries) => r is Some && dict_entries(*r.unwrap()) == entries,
            _ => r is None,
        },
{
    obj.as_dict().ok()
}

/// `lopdf::Dictionary::get`: the value under a key, where the key is there.
#[verifier::external_body]
pub(crate) fn dict_get<'a>(dict: &'a lopdf::Dictionary, key: &[u8]) -> (r: Option<
    &'a lopdf::Object,
>)
    ensures
        match r {
            Some(value) => dict_entries(*dict).contains_key(key@) && node_of(*value)
                == dict_entries(*dict)[key@],
            None => !dict_entries(*dict).contains_key(key@),
        },
{
    dict.get(key).ok()
}

/// `lopdf::Object::as_array`: the items, where the object is an array.
#[verifier::external_body]
pub(crate) fn as_array(obj: &lopdf::Object) -> (r: Option<&Vec<lopdf::Object>>)
    ensures
        match node_of(*obj) {
            Node::Array(items) => r is Some && nodes_of(r.unwrap()@) == items,
            _ => r is None,
        },
{
    obj.as_array().ok()
}

/// `lopdf::Object::as_reference`: the target, where the object is a reference.
#[verifier::external_body]
pub(crate) fn as_reference(obj: &lopdf::Object) -> (r: Option<(u32, u16)>)
    ensures
        match node_of(*obj) {
            Node::Reference(id) => r == Some(id),
            _ => r is None,
        },
{
    obj.as_reference().ok()
}

/// `lopdf::Object::as_name`: the bytes of the name, where the object is one.
#[verifier::external_body]
pub(crate) fn as_name(obj: &lopdf::Object) -> (r: Option<&[u8]>)
    ensures
        match node_of(*obj) {
            Node::Name(name) => r is Some && r.unwrap()@ == name,
            _ => r is None,
        },
{
    obj.as_name().ok()
}

/// `lopdf::Object::as_str`: the bytes of the string, where the object is one.
#[verifier::external_body]
pub(crate) fn as_text(obj: &lopdf::Object) -> (r: Option<&[u8]>)
    ensures
        match node_of(*obj) {
            Node::Text(bytes) => r is Some && r.unwrap()@ == bytes,
            _ => r is None,
        },
{
    obj.as_str().ok()
}

/// `lopdf::Object::as_i64`: the number, where the object is a whole number.
#[verifier::external_body]
pub(crate) fn as_integer(obj: &lopdf::Object) -> (r: Option<i64>)
    ensures
        match node_of(*obj) {
            Node::Integer(value) => r == Some(value),
            _ => r is None,
        },
{
    obj.as_i64().ok()
}

/// The `Real` variant of `lopdf::Object`: the decimal text of the number, as
/// `ToString::to_string` gives it, where the object is a real number. That
/// text is what the model holds for a real number.
#[verifier::external_body]
pub(crate) fn as_real_text(obj: &lopdf::Object) -> (r: Option<Vec<u8>>)
    ensures
        match node_of(*obj) {
            Node::Real(text) => r is Some && r.unwrap()@ == text,
            _ => r is None,
        },
{
    match obj {
        lopdf::Object::Real(value) => Some(value.to_string().into_bytes()),
        _ => None,
    }
}

/// `String::from_utf8_lossy`: the text of a byte string.
#[verifier::external_body]
pub(crate) fn decode_lossy(bytes: &[u8]) -> (r: String)
    ensures
        r@ == lossy_text(bytes@),
{
    String::from_utf8_lossy(bytes).to_string()
}

/// `lopdf::Dictionary::new`: a dictionary without entries.
#[verifier::external_body]
pub(crate) fn new_dictionary() -> (r: lopdf::Dictionary)
    ensures
        (dict_entries(r) == Map::<Seq<u8>, Node>::empty()),
{
    lopdf::Dictionary::new()
}

/// `lopdf::Dictionary::set`: puts a value under a key, in place of what was
/// there.
#[verifier::external_body]
pub(crate) fn dict_set(dict: &mut lopdf::Dictionary, key: &[u8], value: lopdf::Object)
    ensures
        dict_entries(*final(dict)) == dict_entries(*old(dict)).insert(key@, node_of(value)),
{
    dict.set(key.to_vec(), value);
}

/// `lopdf::Dictionary::remove`: takes a key out, where it is there.
#[verifier::external_body]
pub(crate) fn dict_remove(dict: &mut lopdf::Dictionary, key: &[u8])
    ensures
        dict_entries(*final(dict)) == dict_entries(*old(dict)).remove(key@),
{
    dict.remove(key);
}

/// The `Name` variant of `lopdf::Object`.
#[verifier::external_body]
pub(crate) fn name_object(name: &[u8]) -> (r: lopdf::Object)
    ensures
        node_of(r) == Node::Name(name@),
{
    lopdf::Object::Name(name.to_vec())
}

/// `lopdf::Object::string_literal`: a string with the given bytes.
#[verifier::external_body]
pub(crate) fn text_object(bytes: Vec<u8>) -> (r: lopdf::Object)
    ensures
        node_of(r) == Node::Text(bytes@),
{
    lopdf::Object::string_literal(bytes)
}

/// The `Real` variant of `lopdf::Object`, for the number that `str::parse`
/// reads out of a decimal text (zero where it reads none). The document
/// keeps reals in single precision, so the text that comes back for it is
/// named, not stated.
#[verifier::external_body]
pub(crate) fn real_object(text: &str) -> (r: lopdf::Object)
    ensures
        node_of(r) == Node::Real(stored_real_text(text@)),
{
    lopdf::Object::Real(text.parse().unwrap_or_default())
}

/// The `Array` variant of `lopdf::Object`.
#[verifier::external_body]
pub(crate) fn array_object(items: Vec<lopdf::Object>) -> (r: lopdf::Object)
    ensures
        node_of(r) == Node::Array(nodes_of(items@)),
{
    lopdf::Object::Array(items)
}

/// The `Reference` variant of `lopdf::Object`.
#[verifier::external_body]
pub(crate) fn reference_object(id: (u32, u16)) -> (r: lopdf::Object)
    ensures
        node_of(r) == Node::Reference(id),
{
    lopdf::Object::Reference(id)
}

/// The `Dictionary` variant of `lopdf::Object`.
#[verifier::external_body]
pub(crate) fn dictionary_object(dict: lopdf::Dictionary) -> (r: lopdf::Object)
    ensures
        node_of(r) == Node::Dict(dict_entries(dict)),
{
    lopdf::Object::Dictionary(dict)
}

/// `BTreeMap::insert` on `lopdf::Document::objects`: stores an object under a
/// number, in place of what was there. The pages of the changed document are
/// not stated.
#[verifier::external_body]
pub(crate) fn put_object(doc: &mut lopdf::Document, id: (u32, u16), obj: lopdf::Object)
    ensures
        doc_objects(*final(doc)) == doc_objects(*old(doc)).insert(id, node_of(obj)),
        doc_max_id(*final(doc)) == doc_max_id(*old(doc)),
{
    doc.objects.insert(id, obj);
}

/// `lopdf::Document::try_add_object`: stores an object under the next number,
/// generation zero, unless the numbers have run out; then nothing changes.
#[verifier::external_body]
pub(crate) fn add_object(doc: &mut lopdf::Document, obj: lopdf::Object) -> (r: Option<(u32, u16)>)
    ensures
        match r {
            Some(id) => doc_max_id(*old(doc)) < u32::MAX && id == (
                (doc_max_id(*old(doc)) + 1) as u32,
                0u16,
            ) && doc_max_id(*final(doc)) == id.0 && doc_objects(*final(doc)) == doc_objects(
                *old(doc),
            ).insert(id, node_of(obj)),
            None => doc_max_id(*old(doc)) == u32::MAX && *final(doc) == *old(doc),
        },
{
    doc.try_add_object(obj).ok()
}

/// `lopdf::Document::get_object_mut`: the object that a lookup ends at, to be
/// changed in place.
#[verifier::external_body]
pub(crate) fn lookup_mut<'a>(doc: &'a mut lopdf::Document, id: (u32, u16)) -> (r: Option<
    &'a mut lopdf::Object,
>)
    ensures
        match r {
            Some(obj) => chase(doc_objects(*old(doc)), id, 0) == Some(
                (resolve_id(doc_objects(*old(doc)), id).unwrap(), node_of(*obj)),
            ) && doc_objects(*final(doc)) == doc_objects(*old(doc)).insert(
                resolve_id(doc_objects(*old(doc)), id).unwrap(),
                node_of(*final(obj)),
            ) && doc_max_id(*final(doc)) == doc_max_id(*old(doc)),
            None => chase(doc_objects(*old(doc)), id, 0) is None && *final(doc) == *old(doc),
        },
{
    doc.get_object_mut(id).ok()
}

/// `lopdf::Object::as_dict_mut`: the dictionary, where the object is one, to
/// be changed in place.
#[verifier::external_body]
pub(crate) fn as_dictionary_mut<'a>(obj: &'a mut lopdf::Object) -> (r: Option<
    &'a mut lopdf::Dictionary,
>)
    ensures
        match r {
            Some(dict) => node_of(*old(obj)) == Node::Dict(dict_entries(*dict)) && node_of(
                *final(obj),
            ) == Node::Dict(dict_entries(*final(dict))),
            None => !(node_of(*old(obj)) is Dict) && *final(obj) == *old(obj),
        },
{
    obj.as_dict_mut().ok()
}

/// `lopdf::Document::save_to`, into memory: the bytes of the document as a
/// file, or the message of the error. The bytes are named, not stated; they
/// follow from the document alone. Nothing is claimed of the text of the
/// message, nor of the document afterwards, whose trailer the call touches.
#[verifier::external_body]
pub(crate) fn serialize(doc: &mut lopdf::Document) -> (r: Result<Vec<u8>, String>)
    ensures
        match r {
            Ok(out) => document_bytes(*old(doc)) == Some(out@),
            Err(_) => document_bytes(*old(doc)) is None,
        },
{
    let mut out = Vec::new();
    match doc.save_to(&mut out) {
        Ok(()) => Ok(out),
        Err(error) => Err(error.to_string()),
    }
}

} // verus!
