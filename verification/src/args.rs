use vstd::prelude::*;

verus! {

/// What the user asked for on the command line.
#[derive(Debug)]
pub struct KilnArgs {
    pub command: KilnCommand,
}

/// The commands of the application.
#[derive(Debug, PartialEq)]
pub enum KilnCommand {
    /// Set up the settings of the application.
    Setup,
    /// Make a new, empty modpack.
    New { name: String },
    /// Import a modpack from an archive.
    Import { filename: String },
    /// Copy the game's own data directory as a modpack.
    Clone,
    /// List the modpacks on this machine.
    List,
    /// Work on a modpack that exists.
    Project(ProjectCommand),
}

/// The commands that work on one modpack.
#[derive(Debug, PartialEq)]
pub enum ProjectCommand {
    /// Add a mod to the modpack.
    Add { name: String, id: String },
    /// Remove a mod from the modpack.
    Remove { name: String, id: String },
    /// Start the game with the modpack.
    Run { name: String },
    /// Export the modpack to an archive.
    Export { name: String },
    /// List the mods of the modpack.
    Mods { name: String },
}

impl KilnCommand {
    /// Whether the command can only run once the application is set up:
    /// every command but the one that sets it up.
    pub fn needs_setup(&self) -> (needed: bool)
        ensures
            needed == !(self is Setup),
    {
        match self {
            KilnCommand::Setup => false,
            _ => true,
        }
    }

    /// The modpack that the command works on and that has to exist before
    /// it runs, if it works on one.
    pub fn modpack(&self) -> (name: Option<&String>)
        ensures
            (match self {
                KilnCommand::Project(command) => name == Some(command.modpack()),
                _ => name is None,
            }),
    {
        match self {
            KilnCommand::Project(command) => Some(command.modpack()),
            _ => None,
        }
    }
}

impl ProjectCommand {
    /// The name of the modpack that the command works on.
    pub open spec fn spec_modpack(&self) -> &String {
        match self {
            ProjectCommand::Add { name, .. } => name,
            ProjectCommand::Remove { name, .. } => name,
            ProjectCommand::Run { name } => name,
            ProjectCommand::Export { name } => name,
            ProjectCommand::Mods { name } => name,
        }
    }

    /// The name of the modpack that the command works on.
    #[verifier::when_used_as_spec(spec_modpack)]
    pub fn modpack(&self) -> (name: &String)
        ensures
            name == self.spec_modpack(),
    {
        match self {
            ProjectCommand::Add { name, .. } => name,
            ProjectCommand::Remove { name, .. } => name,
            ProjectCommand::Run { name } => name,
            ProjectCommand::Export { name } => name,
            ProjectCommand::Mods { name } => name,
        }
    }
}

} // verus!
