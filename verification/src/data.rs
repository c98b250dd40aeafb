//! The data model: notifications as the poller sees them, with every field a
//! plain value so that the logic over them can be verified. Textual fields
//! (identifiers, titles, timestamps, links) are held as UTF-8 bytes.

use vstd::prelude::*;

verus! {

/// What a notification is about: a title, a subject kind (issue, pull
/// request, ...) and the canonical API link.
pub struct Subject {
    pub title: Vec<u8>,
    pub subject_type: Vec<u8>,
    pub url: Vec<u8>,
}

/// The repository a notification came from.
pub struct Repository {
    pub name: Vec<u8>,
}

/// One notification as fetched from the remote API.
pub struct Notification {
    pub id: Vec<u8>,
    pub updated_at: Vec<u8>,
    pub subject: Subject,
    pub repository: Repository,
}

/// An ordered batch of notifications: one API response, or the persisted
/// set read back from disk.
pub struct Notifications {
    pub list: Vec<Notification>,
}

/// The mathematical value of a `Subject`.
#[verifier::ext_equal]
pub struct SubjectView {
    pub title: Seq<u8>,
    pub subject_type: Seq<u8>,
    pub url: Seq<u8>,
}

/// The mathematical value of a `Repository`.
#[verifier::ext_equal]
pub struct RepositoryView {
    pub name: Seq<u8>,
}

/// The mathematical value of a `Notification`.
#[verifier::ext_equal]
pub struct NotificationView {
    pub id: Seq<u8>,
    pub updated_at: Seq<u8>,
    pub subject: SubjectView,
    pub repository: RepositoryView,
}

impl View for Subject {
    type V = SubjectView;

    open spec fn view(&self) -> SubjectView {
        SubjectView { title: self.title@, subject_type: self.subject_type@, url: self.url@ }
    }
}

impl View for Repository {
    type V = RepositoryView;

    open spec fn view(&self) -> RepositoryView {
        RepositoryView { name: self.name@ }
    }
}

impl View for Notification {
    type V = NotificationView;

    open spec fn view(&self) -> NotificationView {
        NotificationView {
            id: self.id@,
            updated_at: self.updated_at@,
            subject: self.subject@,
            repository: self.repository@,
        }
    }
}

/// A batch is abstractly the sequence of its notifications' values.
impl View for Notifications {
    type V = Seq<NotificationView>;

    open spec fn view(&self) -> Seq<NotificationView> {
        self.list@.map_values(|n: Notification| n@)
    }
}

impl Clone for Subject {
    fn clone(&self) -> (r: Self)
        ensures
            r@ == self@,
    {
        let r = Subject {
            title: self.title.clone(),
            subject_type: self.subject_type.clone(),
            url: self.url.clone(),
        };
        proof {
            assert(r.title@ =~= self.title@);
            assert(r.subject_type@ =~= self.subject_type@);
            assert(r.url@ =~= self.url@);
        }
        r
    }
}

impl Clone for Repository {
    fn clone(&self) -> (r: Self)
        ensures
            r@ == self@,
    {
        let r = Repository { name: self.name.clone() };
        proof {
            assert(r.name@ =~= self.name@);
        }
        r
    }
}

impl Clone for Notification {
    fn clone(&self) -> (r: Self)
        ensures
            r@ == self@,
    {
        let r = Notification {
            id: self.id.clone(),
            updated_at: self.updated_at.clone(),
            subject: self.subject.clone(),
            repository: self.repository.clone(),
        };
        proof {
            assert(r.id@ =~= self.id@);
            assert(r.updated_at@ =~= self.updated_at@);
        }
        r
    }
}

/// Two byte strings hold the same text.
pub fn bytes_eq(a: &Vec<u8>, b: &Vec<u8>) -> (r: bool)
    ensures
        r <==> a@ == b@,
{
    if a.len() != b.len() {
        return false;
    }
    let mut i: usize = 0;
    while i < a.len()
        invariant
            i <= a.len(),
            a.len() == b.len(),
            forall|j: int| 0 <= j < i ==> a@[j] == b@[j],
        decreases a.len() - i,
    {
        if a[i] != b[i] {
            return false;
        }
        i += 1;
    }
    proof {
        assert(a@ =~= b@);
    }
    true
}

} // verus!
