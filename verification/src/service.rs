//! The content service: the decode-store-persist pipeline behind the
//! create, update and delete operations on content records.
//!
//! Each operation decodes the request's parts once, chooses any fresh media
//! path, and changes the table; the host performs the returned pending disk
//! write afterwards. A failed decode commits nothing to the table; a
//! partially written media file from an aborted transfer is the one
//! accepted exception, and the pending-write scheme lets the host write the
//! file only once the whole request has decoded.

use vstd::prelude::*;
use crate::errors::CmsError;
use crate::media::{
    extension_of, fresh_media_name, spec_extension, spec_store_relative, store_relative_path,
    today_formatted, upload_dir, upload_disk_path,
};
use crate::multipart::{
    decode_file_field, decode_text_field, parse_i32, part_views, spec_find_part, spec_parse_i32,
    Part, MAX_FIELD_BYTES,
};
use crate::records::Announcement;
use crate::repository::{spec_lookup, spec_update_id, ContentTable};
use vstd::utf8::{decode_utf8, valid_utf8};

verus! {

/// A file the host must write to disk once the operation has succeeded:
/// the uploaded bytes under the freshly chosen path.
pub struct PendingWrite {
    pub path: String,
    pub data: Vec<u8>,
}

/// What a successful create returns: the committed record and the file the
/// host still has to write.
pub struct AddOutcome {
    pub record: Announcement,
    pub write: PendingWrite,
}

/// What a successful update returns: the record as now stored, and the new
/// image file to write when the request replaced the image.
pub struct EditOutcome {
    pub record: Announcement,
    pub write: Option<PendingWrite>,
}

/// True when `path` is a freshly named file under the upload directory
/// carrying `ext`: a 36-character random stem keeps stored files
/// collision-free and unguessable.
pub open spec fn fresh_upload_path(path: Seq<char>, ext: Seq<char>) -> bool {
    exists|stem: Seq<char>|
        stem.len() == 36 && path == upload_dir() + stem + "."@ + ext
}

/// Creates one content record from the decoded parts of a multipart body.
/// `title` and `content` are required text fields and `image` a required
/// file field; the author comes from the caller's session and the date is
/// the server's, formatted for display. On any failure the table is
/// untouched: no partial record is committed.
pub fn add_content(table: &mut ContentTable, parts: &Vec<Part>, author: String) -> (r: Result<
    AddOutcome,
    CmsError,
>)
    requires
        old(table).wf(),
        old(table)@.next_id < i32::MAX,
    ensures
        final(table).wf(),
        match r {
            Ok(out) => {
                &&& spec_find_part(part_views(parts@), "title"@) matches Some(tp)
                &&& spec_find_part(part_views(parts@), "content"@) matches Some(cp)
                &&& spec_find_part(part_views(parts@), "image"@) matches Some(ip)
                &&& out.record@.id == old(table)@.next_id
                &&& out.record@.title == decode_utf8(
                    spec_find_part(part_views(parts@), "title"@)->0.data,
                )
                &&& out.record@.content == decode_utf8(
                    spec_find_part(part_views(parts@), "content"@)->0.data,
                )
                &&& out.record@.author == author@
                &&& out.record@.date.len() >= 10
                &&& out.write.data@ == spec_find_part(part_views(parts@), "image"@)->0.data
                &&& fresh_upload_path(
                    out.write.path@,
                    spec_extension(spec_find_part(part_views(parts@), "image"@)->0.filename),
                )
                &&& out.record@.image == spec_store_relative(out.write.path@)
                &&& final(table)@.next_id == old(table)@.next_id + 1
                &&& final(table)@.rows == old(table)@.rows.push(out.record@)
            },
            Err(e) => {
                &&& *final(table) == *old(table)
                &&& match spec_find_part(part_views(parts@), "title"@) {
                    None => e.is_missing_field("title"@),
                    Some(tp) => {
                        if tp.data.len() > MAX_FIELD_BYTES {
                            e == CmsError::PayloadTooLarge
                        } else if !valid_utf8(tp.data) {
                            e == CmsError::InvalidEncoding
                        } else {
                            match spec_find_part(part_views(parts@), "content"@) {
                                None => e.is_missing_field("content"@),
                                Some(cp) => {
                                    if cp.data.len() > MAX_FIELD_BYTES {
                                        e == CmsError::PayloadTooLarge
                                    } else if !valid_utf8(cp.data) {
                                        e == CmsError::InvalidEncoding
                                    } else {
                                        e.is_missing_field("image"@) && spec_find_part(
                                            part_views(parts@),
                                            "image"@,
                                        ) is None
                                    }
                                },
                            }
                        }
                    },
                }
            },
        },
{
    let title_key = String::from_str("title");
    let title = match decode_text_field(parts, &title_key) {
        Ok(t) => t,
        Err(e) => {
            return Err(e);
        },
    };
    let content_key = String::from_str("content");
    let content = match decode_text_field(parts, &content_key) {
        Ok(c) => c,
        Err(e) => {
            return Err(e);
        },
    };
    let image_key = String::from_str("image");
    let (data, filename) = match decode_file_field(parts, &image_key) {
        Ok(f) => f,
        Err(e) => {
            return Err(e);
        },
    };
    let ext = extension_of(filename.as_str());
    let stem = fresh_media_name();
    let disk_path = upload_disk_path(stem.as_str(), ext.as_str());
    let db_path = store_relative_path(disk_path.as_str());
    let date = today_formatted();
    proof {
        assert(fresh_upload_path(disk_path@, spec_extension(filename@))) by {
            assert(stem@.len() == 36 && disk_path@ == upload_dir() + stem@ + "."@ + ext@);
        }
    }
    let ghost db_path_v = db_path@;
    let ghost title_v = title@;
    let ghost content_v = content@;
    let ghost date_v = date@;
    let ghost author_v = author@;
    let id = table.add(db_path, title, content, date, author);
    proof {
        crate::repository::lemma_add_then_get(
            old(table)@,
            db_path_v,
            title_v,
            content_v,
            date_v,
            author_v,
        );
    }
    let record = match table.get(id) {
        Ok(rec) => rec,
        Err(_) => {
            proof {
                assert(false);
            }
            return Err(CmsError::NotFound);
        },
    };
    Ok(AddOutcome { record, write: PendingWrite { path: disk_path, data } })
}

/// Updates one content record in place from the decoded parts. `id`,
/// `title` and `content` are required; when an `image` part is present the
/// new file is stored under a fresh name and its store-relative path
/// replaces the old one, and when it is absent the record's current image
/// path is re-read and carried over unchanged, so an edit never clears the
/// image. Updating is otherwise the store's silent-no-op update, but an
/// edit without an image of a record that does not exist fails with
/// `NotFound`, since there is no image to carry over. On any failure the
/// table is untouched.
pub fn edit_content(table: &mut ContentTable, parts: &Vec<Part>, author: String) -> (r: Result<
    EditOutcome,
    CmsError,
>)
    requires
        old(table).wf(),
    ensures
        final(table).wf(),
        match r {
            Ok(out) => {
                &&& spec_find_part(part_views(parts@), "id"@) matches Some(idp)
                &&& valid_utf8(spec_find_part(part_views(parts@), "id"@)->0.data)
                &&& spec_parse_i32(
                    decode_utf8(spec_find_part(part_views(parts@), "id"@)->0.data),
                ) == Some(out.record@.id)
                &&& spec_find_part(part_views(parts@), "title"@) matches Some(tp)
                &&& spec_find_part(part_views(parts@), "content"@) matches Some(cp)
                &&& out.record@.title == decode_utf8(
                    spec_find_part(part_views(parts@), "title"@)->0.data,
                )
                &&& out.record@.content == decode_utf8(
                    spec_find_part(part_views(parts@), "content"@)->0.data,
                )
                &&& out.record@.author == author@
                &&& out.record@.date.len() >= 10
                &&& match spec_find_part(part_views(parts@), "image"@) {
                    Some(ip) => {
                        &&& out.write matches Some(w)
                        &&& out.write->0.data@ == ip.data
                        &&& fresh_upload_path(out.write->0.path@, spec_extension(ip.filename))
                        &&& out.record@.image == spec_store_relative(out.write->0.path@)
                    },
                    None => {
                        &&& out.write is None
                        &&& spec_lookup(old(table)@.rows, out.record@.id) matches Some(prev)
                        &&& out.record@.image == spec_lookup(
                            old(table)@.rows,
                            out.record@.id,
                        )->0.image
                    },
                }
                &&& final(table)@.next_id == old(table)@.next_id
                &&& final(table)@.rows == spec_update_id(
                    old(table)@.rows,
                    out.record@.id,
                    out.record@.image,
                    out.record@.title,
                    out.record@.content,
                    out.record@.date,
                    out.record@.author,
                )
            },
            Err(e) => {
                &&& *final(table) == *old(table)
                &&& match spec_find_part(part_views(parts@), "id"@) {
                    None => e.is_missing_field("id"@),
                    Some(idp) => {
                        if idp.data.len() > MAX_FIELD_BYTES {
                            e == CmsError::PayloadTooLarge
                        } else if !valid_utf8(idp.data) || spec_parse_i32(decode_utf8(idp.data))
                            is None {
                            e == CmsError::InvalidEncoding
                        } else {
                            match spec_find_part(part_views(parts@), "title"@) {
                                None => e.is_missing_field("title"@),
                                Some(tp) => {
                                    if tp.data.len() > MAX_FIELD_BYTES {
                                        e == CmsError::PayloadTooLarge
                                    } else if !valid_utf8(tp.data) {
                                        e == CmsError::InvalidEncoding
                                    } else {
                                        match spec_find_part(part_views(parts@), "content"@) {
                                            None => e.is_missing_field("content"@),
                                            Some(cp) => {
                                                if cp.data.len() > MAX_FIELD_BYTES {
                                                    e == CmsError::PayloadTooLarge
                                                } else if !valid_utf8(cp.data) {
                                                    e == CmsError::InvalidEncoding
                                                } else {
                                                    e == CmsError::NotFound && spec_find_part(
                                                        part_views(parts@),
                                                        "image"@,
                                                    ) is None && spec_lookup(
                                                        old(table)@.rows,
                                                        spec_parse_i32(
                                                            decode_utf8(idp.data),
                                                        )->0,
                                                    ) is None
                                                }
                                            },
                                        }
                                    }
                                },
                            }
                        }
                    },
                }
            },
        },
{
    let id_key = String::from_str("id");
    let id_text = match decode_text_field(parts, &id_key) {
        Ok(t) => t,
        Err(e) => {
            return Err(e);
        },
    };
    let id = match parse_i32(id_text.as_str()) {
        Some(v) => v,
        None => {
            return Err(CmsError::InvalidEncoding);
        },
    };
    let title_key = String::from_str("title");
    let title = match decode_text_field(parts, &title_key) {
        Ok(t) => t,
        Err(e) => {
            return Err(e);
        },
    };
    let content_key = String::from_str("content");
    let content = match decode_text_field(parts, &content_key) {
        Ok(c) => c,
        Err(e) => {
            return Err(e);
        },
    };
    let image_key = String::from_str("image");
    let date = today_formatted();
    match decode_file_field(parts, &image_key) {
        Ok((data, filename)) => {
            let ext = extension_of(filename.as_str());
            let stem = fresh_media_name();
            let disk_path = upload_disk_path(stem.as_str(), ext.as_str());
            let db_path = store_relative_path(disk_path.as_str());
            proof {
                assert(fresh_upload_path(disk_path@, spec_extension(filename@))) by {
                    assert(stem@.len() == 36 && disk_path@ == upload_dir() + stem@ + "."@
                        + ext@);
                }
            }
            let record = Announcement {
                id,
                image: db_path.clone(),
                title: title.clone(),
                content: content.clone(),
                date: date.clone(),
                author: author.clone(),
            };
            table.edit(id, db_path, title, content, date, author);
            Ok(EditOutcome {
                record,
                write: Some(PendingWrite { path: disk_path, data }),
            })
        },
        Err(_) => {
            let prev = match table.get(id) {
                Ok(rec) => rec,
                Err(e) => {
                    return Err(e);
                },
            };
            let record = Announcement {
                id,
                image: prev.image.clone(),
                title: title.clone(),
                content: content.clone(),
                date: date.clone(),
                author: author.clone(),
            };
            table.edit(id, prev.image, title, content, date, author);
            Ok(EditOutcome { record, write: None })
        },
    }
}

/// Deletes one content record by id: the repository delete alone. The
/// record's media file is left on disk, the store's documented leak; a
/// missing id is a silent no-op, so the delete is idempotent.
pub fn delete_content(table: &mut ContentTable, id: i32)
    requires
        old(table).wf(),
    ensures
        final(table).wf(),
        final(table)@.next_id == old(table)@.next_id,
        final(table)@.rows == crate::repository::spec_remove_id(old(table)@.rows, id as int),
{
    table.delete(id);
}

} // verus!
