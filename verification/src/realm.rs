//! Realms: the live one, and laboratories under identifiers of their own.

use crate::error::{CoreError, CoreResult, ErrorView};
use crate::text::{chars_of, same_text};
use vstd::prelude::*;

verus! {

#[derive(Debug, PartialEq, Eq, Hash)]
pub enum RealmId {
    Live,
    Lab(String),
}

/// A realm with its identifier as a sequence of characters.
pub enum RealmView {
    Live,
    Lab(Seq<char>),
}

impl View for RealmId {
    type V = RealmView;

    open spec fn view(&self) -> RealmView {
        match *self {
            RealmId::Live => RealmView::Live,
            RealmId::Lab(id) => RealmView::Lab(id@),
        }
    }
}

impl Clone for RealmId {
    fn clone(&self) -> (copy: RealmId)
        ensures
            copy@ == self@,
    {
        match self {
            RealmId::Live => RealmId::Live,
            RealmId::Lab(id) => RealmId::Lab(id.clone()),
        }
    }
}

/// The text under which a realm is stored, and by which it is written.
pub open spec fn storage_key(realm: RealmView) -> Seq<char> {
    match realm {
        RealmView::Live => "live"@,
        RealmView::Lab(id) => "lab:"@ + id,
    }
}

/// The characters of laboratory identifiers.
pub open spec fn is_lab_char(c: char) -> bool {
    'a' <= c <= 'z' || '0' <= c <= '9' || c == '-'
}

/// Laboratory identifiers have 1 to 32 lowercase letters, digits or hyphens.
pub open spec fn is_lab_id(id: Seq<char>) -> bool {
    &&& 1 <= id.len() <= 32
    &&& forall|i: int| 0 <= i < id.len() ==> is_lab_char(#[trigger] id[i])
}

/// A realm that has a name: the live one, or a laboratory with an identifier.
pub open spec fn is_named_realm(realm: RealmView) -> bool {
    realm matches RealmView::Lab(id) ==> is_lab_id(id)
}

/// The realm of a name, or what is wrong with the name.
pub open spec fn parse_realm(name: Seq<char>) -> Result<RealmView, ErrorView> {
    if name == "live"@ {
        Ok(RealmView::Live)
    } else if !"lab:"@.is_prefix_of(name) {
        Err(ErrorView::InvalidRealm("use 'live' or 'lab:<identifier>'"@))
    } else if !is_lab_id(name.skip(4)) {
        Err(
            ErrorView::InvalidRealm(
                "lab identifiers must contain 1-32 lowercase letters, digits, or hyphens"@,
            ),
        )
    } else {
        Ok(RealmView::Lab(name.skip(4)))
    }
}

impl RealmId {
    /// The text under which this realm is stored.
    pub fn storage_key(&self) -> (key: String)
        ensures
            key@ == storage_key(self@),
    {
        match self {
            RealmId::Live => "live".to_owned(),
            RealmId::Lab(id) => {
                let mut key = "lab:".to_owned();
                key.append(id.as_str());
                key
            },
        }
    }

    pub fn is_live(&self) -> (live: bool)
        ensures
            live == (self@ == RealmView::Live),
    {
        match self {
            RealmId::Live => true,
            RealmId::Lab(_) => false,
        }
    }

    /// The name of this realm, which is its storage key.
    pub fn to_string(&self) -> (name: String)
        ensures
            name@ == storage_key(self@),
    {
        self.storage_key()
    }

    /// The realm of a name.
    pub fn from_str(value: &str) -> (realm: CoreResult<RealmId>)
        ensures
            match realm {
                Ok(realm) => parse_realm(value@) == Ok::<RealmView, ErrorView>(realm@),
                Err(error) => parse_realm(value@) == Err::<RealmView, ErrorView>(error@),
            },
    {
        if same_text(value, "live") {
            return Ok(RealmId::Live);
        }
        let chars = chars_of(value);
        proof {
            reveal_strlit("lab:");
        }
        let is_lab = chars.len() >= 4 && chars[0] == 'l' && chars[1] == 'a' && chars[2] == 'b'
            && chars[3] == ':';
        assert(is_lab == "lab:"@.is_prefix_of(value@)) by {
            if is_lab {
                assert("lab:"@ =~= value@.subrange(0, 4));
            }
            if "lab:"@.is_prefix_of(value@) {
                assert forall|i: int| 0 <= i < 4 implies "lab:"@[i] == value@[i] by {
                    assert(value@.subrange(0, 4)[i] == value@[i]);
                }
                assert("lab:"@[0] == 'l' && "lab:"@[1] == 'a' && "lab:"@[2] == 'b' && "lab:"@[3] == ':');
            }
        }
        if !is_lab {
            return Err(CoreError::InvalidRealm("use 'live' or 'lab:<identifier>'".to_owned()));
        }
        let ghost id = value@.skip(4);
        let mut valid: bool = 5 <= chars.len() && chars.len() <= 36;
        let mut i: usize = 4;
        while valid && i < chars.len()
            invariant
                4 <= i <= chars.len(),
                chars@ == value@,
                id == value@.skip(4),
                valid ==> 1 <= id.len() <= 32,
                valid ==> forall|k: int| 0 <= k < i - 4 ==> is_lab_char(#[trigger] id[k]),
                !valid ==> !is_lab_id(id),
            decreases chars.len() - i + if valid { 1int } else { 0int },
        {
            let c: char = chars[i];
            assert(id[i - 4] == c);
            if ('a' <= c && c <= 'z') || ('0' <= c && c <= '9') || c == '-' {
                i += 1;
            } else {
                valid = false;
            }
        }
        if !valid {
            return Err(
                CoreError::InvalidRealm(
                    "lab identifiers must contain 1-32 lowercase letters, digits, or hyphens".to_owned(),
                ),
            );
        }
        assert(value@.subrange(4, value@.len() as int) =~= id);
        Ok(RealmId::Lab(value.substring_char(4, chars.len()).to_owned()))
    }
}

impl std::str::FromStr for RealmId {
    type Err = CoreError;

    fn from_str(value: &str) -> (realm: CoreResult<RealmId>)
        ensures
            match realm {
                Ok(realm) => parse_realm(value@) == Ok::<RealmView, ErrorView>(realm@),
                Err(error) => parse_realm(value@) == Err::<RealmView, ErrorView>(error@),
            },
    {
        RealmId::from_str(value)
    }
}

} // verus!
