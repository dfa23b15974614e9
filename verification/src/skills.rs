//! What the host decides about skills without touching the file system:
//! whether a folder is a skill, and which skill handles an intent.

use vstd::hash_map::StringHashMap;
use vstd::prelude::*;

use crate::text::{opt_view, views};

verus! {

/// What the host found in a folder that may hold a skill.
#[derive(Debug, Clone)]
pub struct SkillFolder {
    /// Whether the folder exists and is a directory.
    pub is_dir: bool,
    /// The directories in the folder, by their path below it.
    pub dirs: Vec<String>,
    /// The files in the folder, by their path below it.
    pub files: Vec<String>,
    /// The extension of each entry of the directory `intents`, where the
    /// entry has one.
    pub intent_extensions: Vec<Option<String>>,
}

/// The directories that a skill must have.
pub open spec fn required_dirs() -> Seq<Seq<char>> {
    seq!["config"@, "intents"@, "responses"@]
}

/// The files that a skill must have.
pub open spec fn required_files() -> Seq<Seq<char>> {
    seq!["skill.avi"@, "metadata.avi"@, "config/default.json"@, "config/runtime.json"@]
}

/// Every one of `wanted` is among `present`.
pub open spec fn has_all(present: Seq<Seq<char>>, wanted: Seq<Seq<char>>) -> bool {
    forall|i: int| 0 <= i < wanted.len() ==> present.contains(#[trigger] wanted[i])
}

/// A folder is a skill if it is a directory, has the required directories
/// and files, and holds at least one intent: an entry of `intents` with the
/// extension `intent`.
pub open spec fn valid_skill(folder: SkillFolder) -> bool {
    &&& folder.is_dir
    &&& has_all(views(folder.dirs@), required_dirs())
    &&& has_all(views(folder.files@), required_files())
    &&& exists|i: int|
        0 <= i < folder.intent_extensions@.len() && opt_view(
            #[trigger] folder.intent_extensions@[i],
        ) == Some("intent"@)
}

/// Whether `name` is one of `present`.
fn is_present(present: &Vec<String>, name: &str) -> (found: bool)
    ensures
        found == views(present@).contains(name@),
{
    let mut i: usize = 0;
    while i < present.len()
        invariant
            i <= present.len(),
            forall|j: int| 0 <= j < i ==> views(present@)[j] != name@,
        decreases present.len() - i,
    {
        if *present[i].as_str() == *name {
            assert(views(present@)[i as int] == name@);
            return true;
        }
        i += 1;
    }
    false
}

/// Whether the folder is a skill.
pub fn is_valid_skill_folder(folder: &SkillFolder) -> (valid: bool)
    ensures
        valid == valid_skill(*folder),
{
    if !folder.is_dir {
        return false;
    }
    if !(is_present(&folder.dirs, "config") && is_present(&folder.dirs, "intents") && is_present(
        &folder.dirs,
        "responses",
    )) {
        assert(!has_all(views(folder.dirs@), required_dirs())) by {
            if has_all(views(folder.dirs@), required_dirs()) {
                assert(views(folder.dirs@).contains(required_dirs()[0]));
                assert(views(folder.dirs@).contains(required_dirs()[1]));
                assert(views(folder.dirs@).contains(required_dirs()[2]));
            }
        }
        return false;
    }
    if !(is_present(&folder.files, "skill.avi") && is_present(&folder.files, "metadata.avi")
        && is_present(&folder.files, "config/default.json") && is_present(
        &folder.files,
        "config/runtime.json",
    )) {
        assert(!has_all(views(folder.files@), required_files())) by {
            if has_all(views(folder.files@), required_files()) {
                assert(views(folder.files@).contains(required_files()[0]));
                assert(views(folder.files@).contains(required_files()[1]));
                assert(views(folder.files@).contains(required_files()[2]));
                assert(views(folder.files@).contains(required_files()[3]));
            }
        }
        return false;
    }
    let mut i: usize = 0;
    while i < folder.intent_extensions.len()
        invariant
            i <= folder.intent_extensions.len(),
            folder.is_dir,
            has_all(views(folder.dirs@), required_dirs()),
            has_all(views(folder.files@), required_files()),
            forall|j: int|
                0 <= j < i ==> opt_view(#[trigger] folder.intent_extensions@[j]) != Some("intent"@),
        decreases folder.intent_extensions.len() - i,
    {
        match &folder.intent_extensions[i] {
            Some(extension) => {
                if *extension.as_str() == *"intent" {
                    assert(opt_view(folder.intent_extensions@[i as int]) == Some("intent"@));
                    return true;
                }
            },
            None => {},
        }
        i += 1;
    }
    false
}

/// Which skill handles which intent. Skills are numbered in the order in
/// which they were added.
pub struct SkillRoutes {
    intent_map: StringHashMap<usize>,
    skills: usize,
}

/// `routes` with each of `intents` routed to the skill `skill`.
pub open spec fn routed(routes: Map<Seq<char>, usize>, intents: Seq<Seq<char>>, skill: usize) -> Map<
    Seq<char>,
    usize,
>
    decreases intents.len(),
{
    if intents.len() == 0 {
        routes
    } else {
        routed(routes, intents.drop_last(), skill).insert(intents.last(), skill)
    }
}

impl SkillRoutes {
    /// The skill of each intent.
    pub closed spec fn routes(&self) -> Map<Seq<char>, usize> {
        self.intent_map@
    }

    /// The number of skills.
    pub closed spec fn skills(&self) -> nat {
        self.skills as nat
    }

    /// No skills and no routes.
    pub fn new() -> (routes: Self)
        ensures
            routes.skills() == 0,
            routes.routes() == Map::<Seq<char>, usize>::empty(),
    {
        SkillRoutes { intent_map: StringHashMap::new(), skills: 0 }
    }

    /// Adds a skill that handles `intents`, and returns its number. An
    /// intent that an earlier skill handled goes to the new one.
    pub fn add_skill(&mut self, intents: &Vec<String>) -> (skill: usize)
        requires
            old(self).skills() < usize::MAX,
        ensures
            skill == old(self).skills(),
            final(self).skills() == old(self).skills() + 1,
            final(self).routes() == routed(old(self).routes(), views(intents@), skill),
    {
        let skill = self.skills;
        let ghost names = views(intents@);
        let mut i: usize = 0;
        while i < intents.len()
            invariant
                i <= intents.len(),
                names == views(intents@),
                self.skills == skill,
                self.routes() == routed(old(self).routes(), names.take(i as int), skill),
            decreases intents.len() - i,
        {
            assert(names.take(i as int + 1).drop_last() =~= names.take(i as int));
            self.intent_map.insert(intents[i].clone(), skill);
            i += 1;
        }
        assert(names.take(intents.len() as int) =~= names);
        self.skills = skill + 1;
        skill
    }

    /// The skill that handles `intent`, if there is one.
    pub fn skill_for(&self, intent: &str) -> (skill: Option<usize>)
        ensures
            skill == if self.routes().contains_key(intent@) && self.routes()[intent@]
                < self.skills() {
                Some(self.routes()[intent@])
            } else {
                None
            },
    {
        match self.intent_map.get(intent) {
            Some(skill) => {
                if *skill < self.skills {
                    Some(*skill)
                } else {
                    None
                }
            },
            None => None,
        }
    }
}

} // verus!
