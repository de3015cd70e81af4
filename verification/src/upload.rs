//! One part of an uploaded multipart form, after the transport layer has
//! drained it: either a named text field or a file's bytes. The transport
//! collects these; the service only reads them.
use vstd::prelude::*;

verus! {

/// One item of an upload.
#[derive(Debug)]
pub enum UploadItem {
    /// A named form field and its text value.
    Form { name: String, value: String },
    /// An uploaded file's bytes.
    File { data: Vec<u8> },
}

impl UploadItem {
    /// Classify one form part by its disposition parameters: a part that
    /// names a file starts an empty file, any other named part starts an
    /// empty text field, and a part with neither name is not an upload
    /// item.
    pub fn begin(field_name: Option<&str>, file_name: Option<&str>) -> (r: Option<UploadItem>)
        ensures
            file_name is Some ==> (r matches Some(item) && (item matches UploadItem::File { data }
                && data@ == Seq::<u8>::empty())),
            file_name is None ==> (field_name matches Some(n) ==> (r matches Some(item) && (
            item matches UploadItem::Form { name, value } && name@ == n@ && value@ == Seq::<
                char,
            >::empty()))),
            file_name is None && field_name is None ==> r is None,
    {
        if file_name.is_some() {
            Some(UploadItem::File { data: Vec::new() })
        } else {
            match field_name {
                Some(n) => Some(UploadItem::Form { name: n.to_owned(), value: String::new() }),
                None => None,
            }
        }
    }

    /// Fold one transport chunk into the item: a file takes the bytes as
    /// they are; a text field takes only chunks that are valid text, and
    /// drops the rest.
    pub fn absorb(&mut self, chunk: &Vec<u8>)
        ensures
            (*old(self)) matches UploadItem::File { data: d0 } ==> ((*final(self)) matches
                UploadItem::File { data: d1 } && d1@ == d0@ + chunk@),
            (*old(self)) matches UploadItem::Form { name: n0, value: v0 } ==> ((*final(self)) matches
                UploadItem::Form { name: n1, value: v1 } && n1@ == n0@ && (
            if vstd::utf8::valid_utf8(chunk@) {
                v1@ == v0@ + vstd::utf8::decode_utf8(chunk@)
            } else {
                v1@ == v0@
            })),
    {
        match self {
            UploadItem::File { data } => {
                data.extend_from_slice(chunk.as_slice());
                assert(data@ =~= old(self)->File_data@ + chunk@);
            },
            UploadItem::Form { value, .. } => {
                let copy = chunk.clone();
                assert(copy@ =~= chunk@);
                match crate::client::string_from_bytes(copy) {
                    Some(s) => {
                        value.append(s.as_str());
                    },
                    None => {},
                }
            },
        }
    }

    /// The text value, when the item is a form field.
    pub fn get_formdata_name(&self) -> (r: Option<&str>)
        ensures
            r matches Some(v) ==> self matches UploadItem::Form { name, value } && v@ == value@,
            r is Some <==> self is Form,
    {
        match self {
            UploadItem::Form { value, .. } => Some(value.as_str()),
            _ => None,
        }
    }

    /// The bytes, when the item is a file.
    pub fn get_file_data(&self) -> (r: Option<&[u8]>)
        ensures
            r matches Some(v) ==> self matches UploadItem::File { data } && v@ == data@,
            r is Some <==> self is File,
    {
        match self {
            UploadItem::File { data } => Some(data.as_slice()),
            _ => None,
        }
    }
}

} // verus!
