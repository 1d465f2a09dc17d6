//! Bounds on the text fields of a poll, counted in characters.
use vstd::prelude::*;
use vstd::string::StrSliceExecFns;
use crate::types::FieldError;

verus! {

pub const MIN_TITLE_LENGTH: usize = 4;

pub const MAX_TITLE_LENGTH: usize = 64;

pub const MIN_DESC_LENGTH: usize = 4;

pub const MAX_DESC_LENGTH: usize = 1024;

pub const MIN_LINK_LENGTH: usize = 12;

pub const MAX_LINK_LENGTH: usize = 128;

/// The characters of an optional text.
pub open spec fn text_of(link: Option<String>) -> Option<Seq<char>> {
    match link {
        Some(s) => Some(s@),
        None => None,
    }
}

/// The first bound that the fields break, in the order title, description, link.
pub open spec fn field_error(title: Seq<char>, description: Seq<char>, link: Option<Seq<char>>) -> Option<FieldError> {
    if title.len() < MIN_TITLE_LENGTH {
        Some(FieldError::TitleTooShort)
    } else if title.len() > MAX_TITLE_LENGTH {
        Some(FieldError::TitleTooLong)
    } else if description.len() < MIN_DESC_LENGTH {
        Some(FieldError::DescriptionTooShort)
    } else if description.len() > MAX_DESC_LENGTH {
        Some(FieldError::DescriptionTooLong)
    } else if link is Some && link.unwrap().len() < MIN_LINK_LENGTH {
        Some(FieldError::LinkTooShort)
    } else if link is Some && link.unwrap().len() > MAX_LINK_LENGTH {
        Some(FieldError::LinkTooLong)
    } else {
        None
    }
}

pub fn validate_fields(title: &String, description: &String, link: &Option<String>) -> (r: Option<FieldError>)
    ensures
        r == field_error(title@, description@, text_of(*link)),
{
    let title_len = title.as_str().unicode_len();
    if title_len < MIN_TITLE_LENGTH {
        return Some(FieldError::TitleTooShort);
    }
    if title_len > MAX_TITLE_LENGTH {
        return Some(FieldError::TitleTooLong);
    }
    let desc_len = description.as_str().unicode_len();
    if desc_len < MIN_DESC_LENGTH {
        return Some(FieldError::DescriptionTooShort);
    }
    if desc_len > MAX_DESC_LENGTH {
        return Some(FieldError::DescriptionTooLong);
    }
    match link {
        Some(text) => {
            let link_len = text.as_str().unicode_len();
            if link_len < MIN_LINK_LENGTH {
                Some(FieldError::LinkTooShort)
            } else if link_len > MAX_LINK_LENGTH {
                Some(FieldError::LinkTooLong)
            } else {
                None
            }
        },
        None => None,
    }
}

} // verus!
