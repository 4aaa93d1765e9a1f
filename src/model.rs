use vstd::prelude::*;

verus! {

/// The attachment references of a post, and the media they resolve to once joined.
pub struct Attachments {
    pub media_keys: Vec<String>,
    pub medias: Option<Vec<Media>>,
}

/// A post as the API sends it; `author` is filled in by the join.
pub struct Tweet {
    pub text: String,
    pub created_at: String,
    pub author_id: String,
    pub author: Option<User>,
    pub attachments: Option<Attachments>,
    pub id: String,
}

/// An account: `name` is the display name.
pub struct User {
    pub id: String,
    pub username: String,
    pub name: String,
}

/// One media record of a page's side list; `url` is absent when the asset
/// cannot be downloaded directly.
pub struct Media {
    pub media_key: String,
    pub kind: String,
    pub url: Option<String>,
}

/// The side lists of a page of posts.
pub struct Includes {
    pub media: Vec<Media>,
}

/// One page of liked posts.
pub struct TweetResp {
    pub data: Option<Vec<Tweet>>,
    pub includes: Option<Includes>,
}

/// The answer to a lookup of users.
pub struct UserResp {
    pub data: Option<Vec<User>>,
    pub errors: Option<Vec<UserErr>>,
}

/// One entry of the errors that a lookup of users reports.
pub struct UserErr {
    pub value: String,
    pub detail: String,
    pub title: String,
    pub resource_type: String,
    pub parameter: String,
    pub resource_id: String,
    pub kind: String,
}

impl User {
    /// A copy with the same field values.
    pub fn duplicate(&self) -> (r: User)
        ensures
            r == *self,
    {
        User { id: self.id.clone(), username: self.username.clone(), name: self.name.clone() }
    }
}

impl Media {
    /// A copy with the same field values.
    pub fn duplicate(&self) -> (r: Media)
        ensures
            r == *self,
    {
        let url = match &self.url {
            Some(u) => Some(u.clone()),
            None => None,
        };
        Media { media_key: self.media_key.clone(), kind: self.kind.clone(), url }
    }
}

} // verus!
