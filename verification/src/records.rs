//! The content records and the typed request forms they are built from.
//!
//! Announcements and articles are structurally identical record kinds; both
//! are carried by [`Announcement`] and stored in the same table type, one
//! table per kind.

use vstd::prelude::*;

verus! {

/// The mathematical value of one content record.
pub struct RecordView {
    pub id: int,
    pub image: Seq<char>,
    pub title: Seq<char>,
    pub content: Seq<char>,
    pub date: Seq<char>,
    pub author: Seq<char>,
}

/// One content record: a store-assigned id, a store-relative image path,
/// and the display fields. Articles share this shape.
pub struct Announcement {
    pub id: i32,
    pub image: String,
    pub title: String,
    pub content: String,
    pub date: String,
    pub author: String,
}

impl View for Announcement {
    type V = RecordView;

    open spec fn view(&self) -> RecordView {
        RecordView {
            id: self.id as int,
            image: self.image@,
            title: self.title@,
            content: self.content@,
            date: self.date@,
            author: self.author@,
        }
    }
}

impl Announcement {
    /// A field-for-field copy of this record.
    pub fn duplicate(&self) -> (r: Announcement)
        ensures
            r@ == self@,
    {
        Announcement {
            id: self.id,
            image: self.image.clone(),
            title: self.title.clone(),
            content: self.content.clone(),
            date: self.date.clone(),
            author: self.author.clone(),
        }
    }
}

/// A full announcement as carried by an edit form.
pub struct AnnouncementForm {
    pub id: i32,
    pub image: String,
    pub title: String,
    pub content: String,
    pub date: String,
    pub author: String,
}

/// The decoded request to create an announcement; `image_path` is already
/// store-relative.
pub struct AddAnnouncementForm {
    pub title: String,
    pub content: String,
    pub date: String,
    pub author: String,
    pub image_path: String,
}

/// The decoded request to update an announcement in place.
pub struct EditAnnouncementForm {
    pub id: i32,
    pub image_path: String,
    pub title: String,
    pub content: String,
    pub date: String,
    pub author: String,
}

/// The request to delete one announcement by id.
pub struct DeleteAnnouncementForm {
    pub id: i32,
}

/// A full article as carried by an edit form; articles mirror announcements.
pub struct ArticleForm {
    pub id: i32,
    pub image: String,
    pub title: String,
    pub content: String,
    pub date: String,
    pub author: String,
}

/// The decoded request to create an article.
pub struct AddArticleForm {
    pub title: String,
    pub content: String,
    pub date: String,
    pub author: String,
    pub image_path: String,
}

/// The decoded request to update an article in place.
pub struct EditArticleForm {
    pub id: i32,
    pub image_path: String,
    pub title: String,
    pub content: String,
    pub date: String,
    pub author: String,
}

/// The request to delete one article by id.
pub struct DeleteArticleForm {
    pub id: i32,
}

} // verus!
