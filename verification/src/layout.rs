use vstd::prelude::*;
use vstd::string::*;

verus! {

/// `child` below `base`: the two joined by one `/`, which every platform
/// the application runs on takes as a separator.
pub open spec fn joined(base: Seq<char>, child: Seq<char>) -> Seq<char> {
    base + seq!['/'] + child
}

/// `stem` followed by `ending`.
pub open spec fn with_ending(stem: Seq<char>, ending: Seq<char>) -> Seq<char> {
    stem + ending
}

/// The path of `child` below `base`.
pub fn join(base: &str, child: &str) -> (path: String)
    ensures
        path@ == joined(base@, child@),
{
    let mut path = base.to_owned();
    path.append("/");
    path.append(child);
    proof {
        reveal_strlit("/");
        assert("/"@ =~= seq!['/']);
    }
    path
}

/// `stem` with `ending` written behind it.
pub fn append_ending(stem: &str, ending: &str) -> (name: String)
    ensures
        name@ == with_ending(stem@, ending@),
{
    let mut name = stem.to_owned();
    name.append(ending);
    name
}

/// Where the application keeps its own files, below the platform's data
/// directory `base`.
pub fn get_data_dir(base: &str) -> (dir: String)
    ensures
        dir@ == joined(base@, "Kiln"@),
{
    join(base, "Kiln")
}

/// Where the modpacks live, below the application's data directory.
pub fn get_mods_dir(data_dir: &str) -> (dir: String)
    ensures
        dir@ == joined(data_dir@, "instances"@),
{
    join(data_dir, "instances")
}

/// The settings file of the application.
pub fn settings_file(data_dir: &str) -> (file: String)
    ensures
        file@ == joined(data_dir@, "conf.json"@),
{
    join(data_dir, "conf.json")
}

/// The directory of the modpack `name`.
pub fn modpack_dir(data_dir: &str, name: &str) -> (dir: String)
    ensures
        dir@ == joined(joined(data_dir@, "instances"@), name@),
{
    let mods_dir = get_mods_dir(data_dir);
    join(mods_dir.as_str(), name)
}

/// The directory that the downloaded mods of the modpack `name` are written
/// to, and that the game loads them from.
pub fn mods_folder(data_dir: &str, name: &str) -> (dir: String)
    ensures
        dir@ == joined(joined(joined(data_dir@, "instances"@), name@), "Mods"@),
{
    let pack_dir = modpack_dir(data_dir, name);
    join(pack_dir.as_str(), "Mods")
}

/// The file that holds the record of the modpack `name`.
pub fn record_file(data_dir: &str, name: &str) -> (file: String)
    ensures
        file@ == joined(joined(joined(data_dir@, "instances"@), name@), "kiln.json"@),
{
    let pack_dir = modpack_dir(data_dir, name);
    join(pack_dir.as_str(), "kiln.json")
}

/// The name of the archive that the modpack `name` is exported to.
pub fn archive_name(name: &str) -> (file: String)
    ensures
        file@ == with_ending(name@, ".kiln"@),
{
    append_ending(name, ".kiln")
}

} // verus!
