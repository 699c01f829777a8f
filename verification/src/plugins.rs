//! Synthetic "command" entities: placeholders for a future plugin system,
//! exposed uniformly beside installed applications.

use vstd::prelude::*;
use crate::common::Image;
use crate::common::ImageV;
use crate::application::copy_opt_string;

verus! {

/// A command entry of the catalog. Its `id` is assigned at creation and
/// carries no meaning beyond uniqueness within one load.
pub struct CommandEntity {
    pub id: u64,
    pub name: String,
    pub alias: Option<String>,
    pub description: Option<String>,
    pub image: Option<Image>,
    pub needs_argument: bool,
}

/// The mathematical shape of a command entry.
pub struct CmdV {
    pub id: u64,
    pub name: Seq<char>,
    pub alias: Option<Seq<char>>,
    pub description: Option<Seq<char>>,
    pub image: Option<ImageV>,
    pub needs_argument: bool,
}

impl View for CommandEntity {
    type V = CmdV;

    open spec fn view(&self) -> CmdV {
        CmdV {
            id: self.id,
            name: self.name@,
            alias: match self.alias {
                Some(a) => Some(a@),
                None => None,
            },
            description: match self.description {
                Some(d) => Some(d@),
                None => None,
            },
            image: match self.image {
                Some(img) => Some(img@),
                None => None,
            },
            needs_argument: self.needs_argument,
        }
    }
}

impl CommandEntity {
    /// A copy of this command with the same contents.
    pub fn duplicate(&self) -> (r: CommandEntity)
        ensures
            r@ == self@,
    {
        CommandEntity {
            id: self.id,
            name: self.name.clone(),
            alias: copy_opt_string(&self.alias),
            description: copy_opt_string(&self.description),
            image: match &self.image {
                Some(img) => Some(img.duplicate()),
                None => None,
            },
            needs_argument: self.needs_argument,
        }
    }
}

} // verus!
