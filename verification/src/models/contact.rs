//! The contact record and the request payloads built from it.

use vstd::prelude::*;
use vstd::string::StringExecFns;

verus! {

/// Email address entry, as the remote data source lists them.
pub struct EmailEntry {
    /// The email address
    pub email: String,
}

/// Phone number entry, as the remote data source lists them.
pub struct PhoneEntry {
    /// The phone number
    pub phone: String,
}

/// A social media profile associated with a contact.
pub struct SocialProfile {
    /// Kind of social network (e.g. "twitter", "linkedin")
    pub profile_type: String,
    /// Username or handle
    pub username: Option<String>,
    /// Full URL to the profile
    pub url: String,
}

/// The mathematical value of a `SocialProfile`.
#[verifier::ext_equal]
pub struct SocialProfileView {
    pub profile_type: Seq<char>,
    pub username: Option<Seq<char>>,
    pub url: Seq<char>,
}

impl View for SocialProfile {
    type V = SocialProfileView;

    open spec fn view(&self) -> SocialProfileView {
        SocialProfileView {
            profile_type: self.profile_type@,
            username: self.username.deep_view(),
            url: self.url@,
        }
    }
}

impl DeepView for SocialProfile {
    type V = SocialProfileView;

    open spec fn deep_view(&self) -> SocialProfileView {
        self.view()
    }
}

impl Clone for SocialProfile {
    fn clone(&self) -> (res: Self)
        ensures
            res@ == self@,
    {
        let res = SocialProfile {
            profile_type: self.profile_type.clone(),
            username: self.username.clone(),
            url: self.url.clone(),
        };
        proof {
            assert(res@ =~= self@);
        }
        res
    }
}

impl SocialProfile {
    /// Create a new social profile with no username.
    pub fn new(profile_type: String, url: String) -> (r: Self)
        ensures
            r@.profile_type == profile_type@,
            r@.username is None,
            r@.url == url@,
    {
        SocialProfile { profile_type, username: None, url }
    }
}

/// A contact in the personal CRM.
pub struct Contact {
    /// Unique identifier for the contact
    pub id: String,
    /// Full name (computed from first and last name)
    pub name: String,
    /// First name
    pub first_name: Option<String>,
    /// Last name
    pub last_name: Option<String>,
    /// Primary email address (computed from the email list)
    pub email: Option<String>,
    /// Email addresses
    pub emails: Vec<String>,
    /// Primary phone number (computed from the phone list)
    pub phone: Option<String>,
    /// Phone numbers
    pub phones: Vec<String>,
    /// Job title
    pub job_title: Option<String>,
    /// Job title alias kept for compatibility
    pub title: Option<String>,
    /// Company or organisation
    pub company: Option<String>,
    /// Description of the contact
    pub description: Option<String>,
    /// Tags associated with the contact
    pub tags: Vec<String>,
    /// Social media profiles
    pub social_profiles: Vec<SocialProfile>,
    /// Education information
    pub education: Option<String>,
    /// Website URL
    pub website: Option<String>,
    /// Profile image URL
    pub image_url: Option<String>,
    /// LinkedIn profile
    pub linkedin: Option<String>,
    /// Facebook profile
    pub facebook: Option<String>,
    /// Twitter profile
    pub twitter: Option<String>,
    /// Instagram profile
    pub instagram: Option<String>,
    /// Telegram profile
    pub telegram: Option<String>,
    /// Birthday
    pub birthday: Option<String>,
    /// Location or address
    pub location: Option<String>,
    /// Custom notes
    pub notes: Option<String>,
    /// Last time the contact was seen
    pub last_seen_at: Option<String>,
    /// Next reminder date
    pub next_reminder_at: Option<String>,
    /// Whether the contact is archived
    pub is_archived: bool,
    /// Creation timestamp
    pub created_at: Option<String>,
    /// Last update timestamp
    pub updated_at: Option<String>,
}

/// The mathematical value of a `Contact`.
#[verifier::ext_equal]
pub struct ContactView {
    pub id: Seq<char>,
    pub name: Seq<char>,
    pub first_name: Option<Seq<char>>,
    pub last_name: Option<Seq<char>>,
    pub email: Option<Seq<char>>,
    pub emails: Seq<Seq<char>>,
    pub phone: Option<Seq<char>>,
    pub phones: Seq<Seq<char>>,
    pub job_title: Option<Seq<char>>,
    pub title: Option<Seq<char>>,
    pub company: Option<Seq<char>>,
    pub description: Option<Seq<char>>,
    pub tags: Seq<Seq<char>>,
    pub social_profiles: Seq<SocialProfileView>,
    pub education: Option<Seq<char>>,
    pub website: Option<Seq<char>>,
    pub image_url: Option<Seq<char>>,
    pub linkedin: Option<Seq<char>>,
    pub facebook: Option<Seq<char>>,
    pub twitter: Option<Seq<char>>,
    pub instagram: Option<Seq<char>>,
    pub telegram: Option<Seq<char>>,
    pub birthday: Option<Seq<char>>,
    pub location: Option<Seq<char>>,
    pub notes: Option<Seq<char>>,
    pub last_seen_at: Option<Seq<char>>,
    pub next_reminder_at: Option<Seq<char>>,
    pub is_archived: bool,
    pub created_at: Option<Seq<char>>,
    pub updated_at: Option<Seq<char>>,
}

impl View for Contact {
    type V = ContactView;

    open spec fn view(&self) -> ContactView {
        ContactView {
            id: self.id@,
            name: self.name@,
            first_name: self.first_name.deep_view(),
            last_name: self.last_name.deep_view(),
            email: self.email.deep_view(),
            emails: self.emails.deep_view(),
            phone: self.phone.deep_view(),
            phones: self.phones.deep_view(),
            job_title: self.job_title.deep_view(),
            title: self.title.deep_view(),
            company: self.company.deep_view(),
            description: self.description.deep_view(),
            tags: self.tags.deep_view(),
            social_profiles: self.social_profiles.deep_view(),
            education: self.education.deep_view(),
            website: self.website.deep_view(),
            image_url: self.image_url.deep_view(),
            linkedin: self.linkedin.deep_view(),
            facebook: self.facebook.deep_view(),
            twitter: self.twitter.deep_view(),
            instagram: self.instagram.deep_view(),
            telegram: self.telegram.deep_view(),
            birthday: self.birthday.deep_view(),
            location: self.location.deep_view(),
            notes: self.notes.deep_view(),
            last_seen_at: self.last_seen_at.deep_view(),
            next_reminder_at: self.next_reminder_at.deep_view(),
            is_archived: self.is_archived,
            created_at: self.created_at.deep_view(),
            updated_at: self.updated_at.deep_view(),
        }
    }
}

impl DeepView for Contact {
    type V = ContactView;

    open spec fn deep_view(&self) -> ContactView {
        self.view()
    }
}

/// Clone an optional string, keeping its value.
pub fn clone_opt_string(o: &Option<String>) -> (r: Option<String>)
    ensures
        r.deep_view() == o.deep_view(),
{
    match o {
        Some(s) => Some(s.clone()),
        None => None,
    }
}

/// Clone a vector of strings, keeping its value.
pub fn clone_string_vec(v: &Vec<String>) -> (r: Vec<String>)
    ensures
        r.deep_view() == v.deep_view(),
{
    let mut r: Vec<String> = Vec::new();
    let mut i: usize = 0;
    while i < v.len()
        invariant
            i <= v@.len(),
            r@.len() == i,
            forall|k: int| 0 <= k < i ==> r@[k]@ == v@[k]@,
        decreases v@.len() - i,
    {
        r.push(v[i].clone());
        i = i + 1;
    }
    assert(r.deep_view() =~= v.deep_view());
    r
}

impl Clone for Contact {
    fn clone(&self) -> (res: Self)
        ensures
            res@ == self@,
    {
        let res = Contact {
            id: self.id.clone(),
            name: self.name.clone(),
            first_name: clone_opt_string(&self.first_name),
            last_name: clone_opt_string(&self.last_name),
            email: clone_opt_string(&self.email),
            emails: clone_string_vec(&self.emails),
            phone: clone_opt_string(&self.phone),
            phones: clone_string_vec(&self.phones),
            job_title: clone_opt_string(&self.job_title),
            title: clone_opt_string(&self.title),
            company: clone_opt_string(&self.company),
            description: clone_opt_string(&self.description),
            tags: clone_string_vec(&self.tags),
            social_profiles: self.social_profiles.clone(),
            education: clone_opt_string(&self.education),
            website: clone_opt_string(&self.website),
            image_url: clone_opt_string(&self.image_url),
            linkedin: clone_opt_string(&self.linkedin),
            facebook: clone_opt_string(&self.facebook),
            twitter: clone_opt_string(&self.twitter),
            instagram: clone_opt_string(&self.instagram),
            telegram: clone_opt_string(&self.telegram),
            birthday: clone_opt_string(&self.birthday),
            location: clone_opt_string(&self.location),
            notes: clone_opt_string(&self.notes),
            last_seen_at: clone_opt_string(&self.last_seen_at),
            next_reminder_at: clone_opt_string(&self.next_reminder_at),
            is_archived: self.is_archived,
            created_at: clone_opt_string(&self.created_at),
            updated_at: clone_opt_string(&self.updated_at),
        };
        proof {
            assert(res.social_profiles.deep_view() =~= self.social_profiles.deep_view());
            assert(res@ =~= self@);
        }
        res
    }
}

/// The name a contact gets from its first and last name.
pub open spec fn computed_name(first: Option<Seq<char>>, last: Option<Seq<char>>) -> Seq<char> {
    match (first, last) {
        (Some(f), Some(l)) => f + seq![' '] + l,
        (Some(f), None) => f,
        (None, Some(l)) => l,
        (None, None) => Seq::empty(),
    }
}

impl Contact {
    /// Create a new contact with only an id and a name; every other field is
    /// empty.
    pub fn new(id: String, name: String) -> (r: Self)
        ensures
            r@.id == id@,
            r@.name == name@,
            r@.first_name is None,
            r@.last_name is None,
            r@.email is None,
            r@.emails == Seq::<Seq<char>>::empty(),
            r@.phone is None,
            r@.phones == Seq::<Seq<char>>::empty(),
            r@.job_title is None,
            r@.title is None,
            r@.company is None,
            r@.description is None,
            r@.tags == Seq::<Seq<char>>::empty(),
            r@.social_profiles == Seq::<SocialProfileView>::empty(),
            r@.education is None,
            r@.website is None,
            r@.image_url is None,
            r@.linkedin is None,
            r@.facebook is None,
            r@.twitter is None,
            r@.instagram is None,
            r@.telegram is None,
            r@.birthday is None,
            r@.location is None,
            r@.notes is None,
            r@.last_seen_at is None,
            r@.next_reminder_at is None,
            !r@.is_archived,
            r@.created_at is None,
            r@.updated_at is None,
    {
        let r = Contact {
            id,
            name,
            first_name: None,
            last_name: None,
            email: None,
            emails: Vec::new(),
            phone: None,
            phones: Vec::new(),
            job_title: None,
            title: None,
            company: None,
            description: None,
            tags: Vec::new(),
            social_profiles: Vec::new(),
            education: None,
            website: None,
            image_url: None,
            linkedin: None,
            facebook: None,
            twitter: None,
            instagram: None,
            telegram: None,
            birthday: None,
            location: None,
            notes: None,
            last_seen_at: None,
            next_reminder_at: None,
            is_archived: false,
            created_at: None,
            updated_at: None,
        };
        proof {
            assert(r@.emails =~= Seq::<Seq<char>>::empty());
            assert(r@.phones =~= Seq::<Seq<char>>::empty());
            assert(r@.tags =~= Seq::<Seq<char>>::empty());
            assert(r@.social_profiles =~= Seq::<SocialProfileView>::empty());
        }
        r
    }

    /// Fill the computed fields from the raw record: the full name from first
    /// and last name, the primary email and phone from the lists, and the
    /// title from the job title when it is not set.
    pub fn populate_computed_fields(&mut self)
        ensures
            final(self)@ == (ContactView {
                name: computed_name(old(self)@.first_name, old(self)@.last_name),
                email: if old(self)@.emails.len() > 0 {
                    Some(old(self)@.emails[0])
                } else {
                    None
                },
                phone: if old(self)@.phones.len() > 0 {
                    Some(old(self)@.phones[0])
                } else {
                    None
                },
                title: if old(self)@.title is Some {
                    old(self)@.title
                } else {
                    old(self)@.job_title
                },
                ..old(self)@
            }),
    {
        self.name = match (&self.first_name, &self.last_name) {
            (Some(first), Some(last)) => {
                let mut n = first.clone();
                n.append(" ");
                n.append(last.as_str());
                proof {
                    reveal_strlit(" ");
                    assert(" "@ =~= seq![' ']);
                    assert(n@ =~= computed_name(self@.first_name, self@.last_name));
                }
                n
            },
            (Some(first), None) => first.clone(),
            (None, Some(last)) => last.clone(),
            (None, None) => String::new(),
        };
        self.email = if self.emails.len() > 0 {
            Some(self.emails[0].clone())
        } else {
            None
        };
        self.phone = if self.phones.len() > 0 {
            Some(self.phones[0].clone())
        } else {
            None
        };
        if self.title.is_none() {
            self.title = clone_opt_string(&self.job_title);
        }
        proof {
            if self.emails@.len() > 0 {
                assert(self.emails.deep_view()[0] == self.emails@[0]@);
            }
            if self.phones@.len() > 0 {
                assert(self.phones.deep_view()[0] == self.phones@[0]@);
            }
            assert(final(self)@ =~= (ContactView {
                name: computed_name(old(self)@.first_name, old(self)@.last_name),
                email: if old(self)@.emails.len() > 0 {
                    Some(old(self)@.emails[0])
                } else {
                    None
                },
                phone: if old(self)@.phones.len() > 0 {
                    Some(old(self)@.phones[0])
                } else {
                    None
                },
                title: if old(self)@.title is Some {
                    old(self)@.title
                } else {
                    old(self)@.job_title
                },
                ..old(self)@
            }));
        }
    }
}

impl Default for Contact {
    /// A contact with every field empty.
    fn default() -> (r: Self)
        ensures
            r@.id == Seq::<char>::empty(),
            r@.name == Seq::<char>::empty(),
            r@.first_name is None,
            r@.email is None,
            r@.emails == Seq::<Seq<char>>::empty(),
    {
        Contact::new(String::new(), String::new())
    }
}

/// Sequences with adjacent duplicates removed: an element stays when it
/// differs from its predecessor.
pub open spec fn dedup_adj(s: Seq<Seq<char>>) -> Seq<Seq<char>>
    decreases s.len(),
{
    if s.len() <= 1 {
        s
    } else {
        let rest = dedup_adj(s.drop_last());
        if s.last() == s[s.len() - 2] {
            rest
        } else {
            rest.push(s.last())
        }
    }
}

/// Append the strings of `src` to `dst`, dropping each one that equals its
/// predecessor in the combined list.
fn extend_dedup(dst: &mut Vec<String>, src: &Vec<String>, Ghost(all): Ghost<Seq<Seq<char>>>)
    requires
        old(dst).deep_view() == dedup_adj(all),
        all.len() > 0 ==> old(dst).deep_view().len() > 0 && old(dst).deep_view().last()
            == all.last(),
    ensures
        final(dst).deep_view() == dedup_adj(all + src.deep_view()),
        (all + src.deep_view()).len() > 0 ==> final(dst).deep_view().len() > 0
            && final(dst).deep_view().last() == (all + src.deep_view()).last(),
{
    let mut i: usize = 0;
    while i < src.len()
        invariant
            i <= src@.len(),
            dst.deep_view() == dedup_adj(all + src.deep_view().take(i as int)),
            (all + src.deep_view().take(i as int)).len() > 0 ==> dst.deep_view().len() > 0
                && dst.deep_view().last() == (all + src.deep_view().take(i as int)).last(),
        decreases src@.len() - i,
    {
        let ghost cur = all + src.deep_view().take(i as int);
        let ghost next = all + src.deep_view().take(i + 1);
        proof {
            assert(next.drop_last() =~= cur);
            assert(next.last() == src.deep_view()[i as int]);
        }
        let keep: bool = if dst.len() == 0 {
            true
        } else {
            let last_idx = dst.len() - 1;
            !string_eq(&dst[last_idx], &src[i])
        };
        if keep {
            dst.push(src[i].clone());
            proof {
                if cur.len() == 0 {
                    assert(next.len() == 1);
                    assert(dedup_adj(next) =~= next);
                    assert(dst.deep_view() =~= next);
                } else {
                    assert(next.last() != next[next.len() - 2]);
                    assert(dedup_adj(next) == dedup_adj(cur).push(next.last()));
                    assert(dst.deep_view() =~= dedup_adj(cur).push(next.last()));
                }
            }
        } else {
            proof {
                assert(cur.len() > 0);
                assert(next.last() == next[next.len() - 2]);
                assert(dedup_adj(next) == dedup_adj(cur));
            }
        }
        i = i + 1;
    }
    proof {
        assert(all + src.deep_view().take(src@.len() as int) =~= all + src.deep_view());
    }
}

/// Whether two strings hold the same characters.
pub fn string_eq(a: &String, b: &String) -> (r: bool)
    ensures
        r == (a@ == b@),
{
    let r = a.eq(b);
    r
}

impl Contact {
    /// All email addresses of the contact: the primary one first, then the
    /// list, with adjacent duplicates removed.
    pub fn all_emails(&self) -> (r: Vec<String>)
        ensures
            r.deep_view() == dedup_adj(opt_seq(self@.email) + self@.emails),
    {
        let mut r: Vec<String> = Vec::new();
        let ghost head = opt_seq(self@.email);
        if let Some(email) = &self.email {
            r.push(email.clone());
        }
        proof {
            assert(r.deep_view() =~= head);
            assert(dedup_adj(head) == head);
            if head.len() > 0 {
                assert(r.deep_view().last() == head.last());
            }
        }
        extend_dedup(&mut r, &self.emails, Ghost(head));
        proof {
            assert(self.emails.deep_view() =~= self@.emails);
        }
        r
    }

    /// All phone numbers of the contact: the primary one first, then the
    /// list, with adjacent duplicates removed.
    pub fn all_phones(&self) -> (r: Vec<String>)
        ensures
            r.deep_view() == dedup_adj(opt_seq(self@.phone) + self@.phones),
    {
        let mut r: Vec<String> = Vec::new();
        let ghost head = opt_seq(self@.phone);
        if let Some(phone) = &self.phone {
            r.push(phone.clone());
        }
        proof {
            assert(r.deep_view() =~= head);
            assert(dedup_adj(head) == head);
            if head.len() > 0 {
                assert(r.deep_view().last() == head.last());
            }
        }
        extend_dedup(&mut r, &self.phones, Ghost(head));
        proof {
            assert(self.phones.deep_view() =~= self@.phones);
        }
        r
    }
}

/// Clone a vector of contacts, keeping its value.
pub fn clone_contacts(v: &Vec<Contact>) -> (r: Vec<Contact>)
    ensures
        r.deep_view() == v.deep_view(),
{
    let mut r: Vec<Contact> = Vec::new();
    let mut i: usize = 0;
    while i < v.len()
        invariant
            i <= v@.len(),
            r@.len() == i,
            forall|k: int| 0 <= k < i ==> r@[k]@ == v@[k]@,
        decreases v@.len() - i,
    {
        r.push(v[i].clone());
        i = i + 1;
    }
    assert(r.deep_view() =~= v.deep_view());
    r
}

/// An optional value as a sequence of zero or one elements.
pub open spec fn opt_seq(o: Option<Seq<char>>) -> Seq<Seq<char>> {
    match o {
        Some(s) => seq![s],
        None => Seq::empty(),
    }
}

// ---------------------------------------------------------------------------
// Request payloads
// ---------------------------------------------------------------------------
/// Whether a flag is off; callers use it to leave default flags out of
/// serialised requests.
pub fn is_false(b: &bool) -> (r: bool)
    ensures
        r == !*b,
{
    !*b
}

/// A phone entry with its label, as creation requests carry them.
pub struct PhoneEntryWithLabel {
    /// The phone number
    pub phone_number: String,
    /// The label, such as "mobile"
    pub label: Option<String>,
}

/// The email list of a creation request.
pub struct ContactEmailsData {
    /// The entries
    pub data: Vec<EmailEntry>,
}

/// The phone list of a creation request.
pub struct ContactPhonesData {
    /// The entries
    pub data: Vec<PhoneEntryWithLabel>,
}

/// The body of a contact creation request.
pub struct ContactPayload {
    /// First name
    pub first_name: Option<String>,
    /// Last name
    pub last_name: Option<String>,
    /// Job title
    pub job_title: Option<String>,
    /// Description
    pub description: Option<String>,
    /// The emails, when there are any
    pub contact_emails: Option<ContactEmailsData>,
    /// The phones, when there are any
    pub contact_phone_numbers: Option<ContactPhonesData>,
}

/// A request to create a contact.
pub struct CreateContactRequest {
    /// The new contact's fields
    pub contact: ContactPayload,
}

impl CreateContactRequest {
    /// Build a creation request from a contact: names, title and
    /// description carry over; the email and phone lists are included only
    /// when nonempty, each phone labelled "mobile".
    pub fn from(contact: &Contact) -> (r: Self)
        ensures
            r.contact.first_name.deep_view() == contact@.first_name,
            r.contact.last_name.deep_view() == contact@.last_name,
            r.contact.job_title.deep_view() == contact@.job_title,
            r.contact.description.deep_view() == contact@.description,
            contact@.emails.len() == 0 <==> r.contact.contact_emails is None,
            r.contact.contact_emails matches Some(d) ==> d.data@.len() == contact@.emails.len()
                && (forall|i: int|
                0 <= i < d.data@.len() ==> (#[trigger] d.data@[i]).email@ == contact@.emails[i]),
            contact@.phones.len() == 0 <==> r.contact.contact_phone_numbers is None,
            r.contact.contact_phone_numbers matches Some(d) ==> d.data@.len()
                == contact@.phones.len() && (forall|i: int|
                0 <= i < d.data@.len() ==> (#[trigger] d.data@[i]).phone_number@
                    == contact@.phones[i] && (d.data@[i].label.deep_view() matches Some(l) && l
                    == "mobile"@)),
    {
        let contact_emails: Option<ContactEmailsData> = if contact.emails.len() > 0 {
            let mut data: Vec<EmailEntry> = Vec::new();
            let mut i: usize = 0;
            while i < contact.emails.len()
                invariant
                    i <= contact.emails@.len(),
                    data@.len() == i,
                    forall|t: int|
                        0 <= t < i ==> (#[trigger] data@[t]).email@ == contact.emails@[t]@,
                decreases contact.emails@.len() - i,
            {
                data.push(EmailEntry { email: contact.emails[i].clone() });
                i = i + 1;
            }
            Some(ContactEmailsData { data })
        } else {
            None
        };
        let contact_phone_numbers: Option<ContactPhonesData> = if contact.phones.len() > 0 {
            let mut data: Vec<PhoneEntryWithLabel> = Vec::new();
            let mut i: usize = 0;
            while i < contact.phones.len()
                invariant
                    i <= contact.phones@.len(),
                    data@.len() == i,
                    forall|t: int|
                        0 <= t < i ==> (#[trigger] data@[t]).phone_number@ == contact.phones@[t]@
                            && (data@[t].label.deep_view() matches Some(l) && l == "mobile"@),
                decreases contact.phones@.len() - i,
            {
                data.push(
                    PhoneEntryWithLabel {
                        phone_number: contact.phones[i].clone(),
                        label: Some(crate::text::str_to_string("mobile")),
                    },
                );
                i = i + 1;
            }
            Some(ContactPhonesData { data })
        } else {
            None
        };
        CreateContactRequest {
            contact: ContactPayload {
                first_name: clone_opt_string(&contact.first_name),
                last_name: clone_opt_string(&contact.last_name),
                job_title: clone_opt_string(&contact.job_title),
                description: clone_opt_string(&contact.description),
                contact_emails,
                contact_phone_numbers,
            },
        }
    }
}

/// The changed fields of an update request.
pub struct ContactChanges {
    /// First name
    pub first_name: Option<String>,
    /// Last name
    pub last_name: Option<String>,
    /// Job title
    pub job_title: Option<String>,
    /// Description
    pub description: Option<String>,
}

/// An email entry of an update request.
pub struct ContactEmailUpdate {
    /// Which contact the email belongs to
    pub contact_id: String,
    /// The email address
    pub email: String,
}

/// A phone entry of an update request.
pub struct ContactPhoneUpdate {
    /// Which contact the phone belongs to
    pub contact_id: String,
    /// The phone number
    pub phone_number: String,
    /// The label, such as "mobile"
    pub label: Option<String>,
}

/// A request to update a contact.
pub struct UpdateContactRequest {
    /// The changed fields
    pub changes: ContactChanges,
    /// Replacement emails, when the update carries any
    pub contact_emails: Option<Vec<ContactEmailUpdate>>,
    /// Replacement phones, when the update carries any
    pub contact_phone_numbers: Option<Vec<ContactPhoneUpdate>>,
    /// Whether the emails are to be replaced
    pub update_contact_emails: bool,
    /// Whether the phones are to be replaced
    pub update_contact_phone_numbers: bool,
}

impl UpdateContactRequest {
    /// Build an update request from a contact: names, title and description
    /// carry over; email and phone replacement lists are included, and their
    /// flags set, only when the lists are nonempty.
    pub fn from_contact(contact: &Contact, contact_id: &str) -> (r: Self)
        ensures
            r.changes.first_name.deep_view() == contact@.first_name,
            r.changes.last_name.deep_view() == contact@.last_name,
            r.changes.job_title.deep_view() == contact@.job_title,
            r.changes.description.deep_view() == contact@.description,
            r.update_contact_emails <==> contact@.emails.len() > 0,
            r.update_contact_phone_numbers <==> contact@.phones.len() > 0,
            contact@.emails.len() == 0 <==> r.contact_emails is None,
            r.contact_emails matches Some(d) ==> d@.len() == contact@.emails.len() && (forall|
                i: int,
            |
                0 <= i < d@.len() ==> (#[trigger] d@[i]).email@ == contact@.emails[i]
                    && d@[i].contact_id@ == contact_id@),
            contact@.phones.len() == 0 <==> r.contact_phone_numbers is None,
            r.contact_phone_numbers matches Some(d) ==> d@.len() == contact@.phones.len() && (
            forall|i: int|
                0 <= i < d@.len() ==> (#[trigger] d@[i]).phone_number@ == contact@.phones[i]
                    && d@[i].contact_id@ == contact_id@),
    {
        let contact_emails: Option<Vec<ContactEmailUpdate>> = if contact.emails.len() > 0 {
            let mut data: Vec<ContactEmailUpdate> = Vec::new();
            let mut i: usize = 0;
            while i < contact.emails.len()
                invariant
                    i <= contact.emails@.len(),
                    data@.len() == i,
                    forall|t: int|
                        0 <= t < i ==> (#[trigger] data@[t]).email@ == contact.emails@[t]@
                            && data@[t].contact_id@ == contact_id@,
                decreases contact.emails@.len() - i,
            {
                data.push(
                    ContactEmailUpdate {
                        contact_id: crate::text::str_to_string(contact_id),
                        email: contact.emails[i].clone(),
                    },
                );
                i = i + 1;
            }
            Some(data)
        } else {
            None
        };
        let contact_phone_numbers: Option<Vec<ContactPhoneUpdate>> = if contact.phones.len() > 0 {
            let mut data: Vec<ContactPhoneUpdate> = Vec::new();
            let mut i: usize = 0;
            while i < contact.phones.len()
                invariant
                    i <= contact.phones@.len(),
                    data@.len() == i,
                    forall|t: int|
                        0 <= t < i ==> (#[trigger] data@[t]).phone_number@ == contact.phones@[t]@
                            && data@[t].contact_id@ == contact_id@,
                decreases contact.phones@.len() - i,
            {
                data.push(
                    ContactPhoneUpdate {
                        contact_id: crate::text::str_to_string(contact_id),
                        phone_number: contact.phones[i].clone(),
                        label: Some(crate::text::str_to_string("mobile")),
                    },
                );
                i = i + 1;
            }
            Some(data)
        } else {
            None
        };
        let update_emails = contact.emails.len() > 0;
        let update_phones = contact.phones.len() > 0;
        UpdateContactRequest {
            changes: ContactChanges {
                first_name: clone_opt_string(&contact.first_name),
                last_name: clone_opt_string(&contact.last_name),
                job_title: clone_opt_string(&contact.job_title),
                description: clone_opt_string(&contact.description),
            },
            contact_emails,
            contact_phone_numbers,
            update_contact_emails: update_emails,
            update_contact_phone_numbers: update_phones,
        }
    }
}

} // verus!
