//! Core of a quick-search application launcher: an entity catalog built at
//! startup, a substring search engine with usage-frequency ranking, a
//! persisted usage store, and the session state machine that reacts to query
//! edits, keyboard navigation and entry activation.

use vstd::prelude::*;

pub mod application;
pub mod codec;
pub mod common;
pub mod icons;
pub mod keybindings;
pub mod launch;
pub mod plugins;
pub mod search;
pub mod session;
pub mod text;

pub use application::App;
pub use application::AppV;
pub use application::Application;
pub use application::DesktopEntryData;
pub use application::LinuxApplication;
pub use application::WindowsApplication;
pub use application::get_apps;
pub use application::parse_exec;
pub use common::AppState;
pub use common::Image;
pub use common::ImageV;
pub use common::UsageInfo;
pub use keybindings::Key;
pub use keybindings::KeyAction;
pub use plugins::CmdV;
pub use plugins::CommandEntity;
pub use search::SearchEngine;
pub use session::Prism;
pub use session::PrismAction;
pub use session::PrismEvent;

verus! {

/// A launchable item: an installed application or a synthetic command.
pub enum Entity {
    Application(App),
    Command(CommandEntity),
}

/// The mathematical shape of an entity.
pub enum EntityV {
    Application(AppV),
    Command(CmdV),
}

impl View for Entity {
    type V = EntityV;

    open spec fn view(&self) -> EntityV {
        match self {
            Entity::Application(app) => EntityV::Application(app@),
            Entity::Command(cmd) => EntityV::Command(cmd@),
        }
    }
}

impl EntityV {
    /// The display name; the identity key for usage tracking and sorting.
    pub open spec fn name(self) -> Seq<char> {
        match self {
            EntityV::Application(app) => app.name,
            EntityV::Command(cmd) => cmd.name,
        }
    }

    /// The description, when the entity carries one.
    pub open spec fn description(self) -> Option<Seq<char>> {
        match self {
            EntityV::Application(app) => None,
            EntityV::Command(cmd) => cmd.description,
        }
    }

    /// Whether activating the entity first asks for an argument.
    pub open spec fn needs_argument(self) -> bool {
        match self {
            EntityV::Application(app) => false,
            EntityV::Command(cmd) => cmd.needs_argument,
        }
    }
}

impl Entity {
    /// The display name; the identity key for usage tracking and sorting.
    pub open spec fn spec_name(self) -> Seq<char> {
        match self {
            Entity::Application(app) => app.name@,
            Entity::Command(cmd) => cmd.name@,
        }
    }

    /// The description, when the entity carries one.
    pub open spec fn spec_description(self) -> Option<Seq<char>> {
        match self {
            Entity::Application(app) => None,
            Entity::Command(cmd) => match cmd.description {
                Some(d) => Some(d@),
                None => None,
            },
        }
    }

    /// Whether activating the entity first asks for an argument.
    pub open spec fn spec_needs_argument(self) -> bool {
        match self {
            Entity::Application(app) => false,
            Entity::Command(cmd) => cmd.needs_argument,
        }
    }

    pub fn name(&self) -> (r: &str)
        ensures
            r@ == self.spec_name(),
    {
        match self {
            Entity::Application(app) => app.name.as_str(),
            Entity::Command(cmd) => cmd.name.as_str(),
        }
    }

    pub fn description(&self) -> (r: Option<&str>)
        ensures
            r is Some <==> self.spec_description() is Some,
            r matches Some(d) ==> self.spec_description() == Some(d@),
    {
        match self {
            Entity::Application(app) => None,
            Entity::Command(cmd) => match &cmd.description {
                Some(d) => Some(d.as_str()),
                None => None,
            },
        }
    }

    /// The icon the entity would display, if it has one.
    pub open spec fn spec_icon(self) -> Option<ImageV> {
        match self {
            Entity::Application(app) => match app.icon_path {
                Some(p) => Some(ImageV::Path(p@)),
                None => None,
            },
            Entity::Command(cmd) => match cmd.image {
                Some(img) => Some(img@),
                None => None,
            },
        }
    }

    pub fn icon(&self) -> (r: Option<Image>)
        ensures
            r is Some <==> self.spec_icon() is Some,
            r matches Some(img) ==> self.spec_icon() == Some(img@),
    {
        match self {
            Entity::Application(app) => match &app.icon_path {
                Some(p) => Some(Image::Path(p.clone())),
                None => None,
            },
            Entity::Command(cmd) => match &cmd.image {
                Some(img) => Some(img.duplicate()),
                None => None,
            },
        }
    }

    pub fn needs_argument(&self) -> (r: bool)
        ensures
            r == self.spec_needs_argument(),
    {
        match self {
            Entity::Application(_) => false,
            Entity::Command(cmd) => cmd.needs_argument,
        }
    }

    /// A copy of this entity with the same contents.
    pub fn duplicate(&self) -> (r: Entity)
        ensures
            r@ == self@,
    {
        match self {
            Entity::Application(app) => Entity::Application(app.duplicate()),
            Entity::Command(cmd) => Entity::Command(cmd.duplicate()),
        }
    }
}

/// The first synthetic command: no alias, no argument.
pub open spec fn fixture_command_one(e: Entity) -> bool {
    &&& e matches Entity::Command(c)
    &&& c.id == 0
    &&& c.name@ == "Fake Command One"@
    &&& c.alias is None
    &&& c.description matches Some(d) && d@ == "This is the first fake command."@
    &&& c.image is None
    &&& !c.needs_argument
}

/// The second synthetic command: carries an alias.
pub open spec fn fixture_command_two(e: Entity) -> bool {
    &&& e matches Entity::Command(c)
    &&& c.id == 1
    &&& c.name@ == "Fake Command Two"@
    &&& c.alias matches Some(a) && a@ == "fct"@
    &&& c.description matches Some(d) && d@ == "This is the second fake command, with an alias."@
    &&& c.image is None
    &&& !c.needs_argument
}

/// The third synthetic command: requires an argument before it executes.
pub open spec fn fixture_command_three(e: Entity) -> bool {
    &&& e matches Entity::Command(c)
    &&& c.id == 2
    &&& c.name@ == "Fake Command Three"@
    &&& c.alias is None
    &&& c.description matches Some(d) && d@ == "A third example of a fake command."@
    &&& c.image is None
    &&& c.needs_argument
}

/// Builds the full entity list for one session: the enumerated applications,
/// each wrapped as an `Entity`, followed by the fixed synthetic commands with
/// ids assigned in increasing order.
pub fn get_entities(apps: Vec<App>) -> (r: Vec<Entity>)
    ensures
        r@.len() == apps@.len() + 3,
        forall|i: int| 0 <= i < apps@.len() ==> r@[i] == Entity::Application(apps@[i]),
        fixture_command_one(r@[apps@.len() as int]),
        fixture_command_two(r@[apps@.len() as int + 1]),
        fixture_command_three(r@[apps@.len() as int + 2]),
{
    let n = apps.len();
    let mut entities: Vec<Entity> = Vec::new();
    let mut apps = apps;
    let mut i: usize = 0;
    // Move the applications over in order, wrapping each one.
    let ghost apps0 = apps@;
    while i < n
        invariant
            i <= n,
            n == apps0.len(),
            apps@ == apps0.skip(i as int),
            entities@.len() == i,
            forall|k: int| 0 <= k < i ==> entities@[k] == Entity::Application(apps0[k]),
        decreases n - i,
    {
        let app = apps.remove(0);
        entities.push(Entity::Application(app));
        i = i + 1;
        proof {
            assert(apps@ =~= apps0.skip(i as int));
        }
    }

    let mut command_id_counter: u64 = 0;

    let fake_command_1 = CommandEntity {
        id: command_id_counter,
        name: String::from_str("Fake Command One"),
        alias: None,
        description: Some(String::from_str("This is the first fake command.")),
        image: None,
        needs_argument: false,
    };
    command_id_counter = command_id_counter + 1;

    let fake_command_2 = CommandEntity {
        id: command_id_counter,
        name: String::from_str("Fake Command Two"),
        alias: Some(String::from_str("fct")),
        description: Some(String::from_str("This is the second fake command, with an alias.")),
        image: None,
        needs_argument: false,
    };
    command_id_counter = command_id_counter + 1;

    let fake_command_3 = CommandEntity {
        id: command_id_counter,
        name: String::from_str("Fake Command Three"),
        alias: None,
        description: Some(String::from_str("A third example of a fake command.")),
        image: None,
        // This one needs an argument.
        needs_argument: true,
    };

    entities.push(Entity::Command(fake_command_1));
    entities.push(Entity::Command(fake_command_2));
    entities.push(Entity::Command(fake_command_3));

    entities
}

} // verus!
