//! The script library of the host: the scripts that are built in, and the
//! directory in which they are installed.

use std::path::PathBuf;
use vstd::prelude::*;

use crate::text::{opt_view, views};

verus! {

/// A path of the file system.
#[verifier::external_type_specification]
#[verifier::external_body]
pub struct ExPathBuf(PathBuf);

/// The path that `Path::join` makes of the path `dir` and the path written
/// as `name`: `name` adjoined to `dir` by the path conventions of the
/// platform, or `name` alone where it is absolute.
pub uninterp spec fn joined_path(dir: PathBuf, name: Seq<char>) -> PathBuf;

/// Calls `Path::join`.
///
/// Trusted: the joined path depends on the directory and the name alone; it
/// is the named result [`joined_path`]. How the two are put together is the
/// platform's matter and is not stated.
#[verifier::external_body]
fn join(dir: &PathBuf, name: &str) -> (path: PathBuf)
    ensures
        path == joined_path(*dir, name@),
{
    dir.join(name)
}

/// The built-in scripts, by name, and the directory that holds the library.
pub struct AviScriptLibraryManager {
    library_dir: PathBuf,
    embedded_scripts: Vec<(String, &'static str)>,
}

/// The scripts of a library: names with their contents.
pub type Scripts = Seq<(Seq<char>, Seq<char>)>;

/// Whether `scripts` holds a script called `name`.
pub open spec fn has_script(scripts: Scripts, name: Seq<char>) -> bool {
    exists|i: int| 0 <= i < scripts.len() && (#[trigger] scripts[i]).0 == name
}

/// `scripts` with the script `name` set to `content`: in the place of the
/// first script of that name, or at the end if there is none.
pub open spec fn registered(scripts: Scripts, name: Seq<char>, content: Seq<char>) -> Scripts
    decreases scripts.len(),
{
    if scripts.len() == 0 {
        seq![(name, content)]
    } else if scripts[0].0 == name {
        scripts.update(0, (name, content))
    } else {
        seq![scripts[0]] + registered(scripts.drop_first(), name, content)
    }
}

/// `scripts` with each of `more` registered in turn.
pub open spec fn registered_all(scripts: Scripts, more: Scripts) -> Scripts
    decreases more.len(),
{
    if more.len() == 0 {
        scripts
    } else {
        registered(registered_all(scripts, more.drop_last()), more.last().0, more.last().1)
    }
}

/// Whether an installed script has to be written: always when forced, and
/// otherwise if no file is there or the file holds something else.
pub open spec fn must_write(force: bool, installed: Option<Seq<char>>, content: Seq<char>) -> bool {
    force || installed != Some(content)
}

/// The names of the scripts that have to be written, in the order of the
/// scripts, where `installed[i]` is what the file of the script `i` holds
/// now, if it is there.
pub open spec fn to_write(scripts: Scripts, installed: Seq<Option<Seq<char>>>, force: bool) -> Seq<
    Seq<char>,
>
    decreases scripts.len(),
{
    if scripts.len() == 0 || installed.len() != scripts.len() {
        Seq::empty()
    } else if must_write(force, installed.last(), scripts.last().1) {
        to_write(scripts.drop_last(), installed.drop_last(), force).push(scripts.last().0)
    } else {
        to_write(scripts.drop_last(), installed.drop_last(), force)
    }
}

/// A file of this name in the library's directory is a script: the name
/// ends in `.rhai`.
pub open spec fn script_name(name: Seq<char>) -> bool {
    name.len() >= ".rhai"@.len() && name.skip(name.len() - ".rhai"@.len()) == ".rhai"@
}

/// Those of `names` that are names of scripts, in their order.
pub open spec fn scripts_among(names: Seq<Seq<char>>) -> Seq<Seq<char>>
    decreases names.len(),
{
    if names.len() == 0 {
        Seq::empty()
    } else if script_name(names.last()) {
        scripts_among(names.drop_last()).push(names.last())
    } else {
        scripts_among(names.drop_last())
    }
}

/// The views of a sequence of optional strings.
pub open spec fn opt_views(texts: Seq<Option<String>>) -> Seq<Option<Seq<char>>> {
    texts.map_values(|text: Option<String>| opt_view(text))
}

/// Whether a file of this name in the library's directory is a script.
pub fn is_script_name(name: &str) -> (script: bool)
    ensures
        script == script_name(name@),
{
    let chars = crate::text::to_chars(name);
    proof {
        reveal_strlit(".rhai");
    }
    if chars.len() < 5 {
        return false;
    }
    let found = crate::text::starts_with(&chars, chars.len() - 5, chars.len(), ".rhai");
    proof {
        let tail = chars@.subrange(chars@.len() - 5, chars@.len() as int);
        assert(tail =~= name@.skip(name@.len() - 5));
        if found {
            assert(".rhai"@ =~= tail.subrange(0, 5));
            assert(tail.subrange(0, 5) =~= tail);
        }
    }
    found
}

/// The names and contents of a list of scripts.
pub open spec fn script_views(scripts: Seq<(String, &'static str)>) -> Scripts {
    scripts.map_values(|script: (String, &'static str)| (script.0@, script.1@))
}

/// No two scripts have the same name.
pub open spec fn distinct_script_names(scripts: Scripts) -> bool {
    forall|i: int, j: int|
        0 <= i < j < scripts.len() ==> (#[trigger] scripts[i]).0 != (#[trigger] scripts[j]).0
}

/// The place of the first script called `name`, or the number of scripts
/// if there is none.
fn position(scripts: &Vec<(String, &'static str)>, name: &str) -> (place: usize)
    ensures
        place <= scripts@.len(),
        place < scripts@.len() ==> scripts@[place as int].0@ == name@,
        forall|j: int| 0 <= j < place ==> (#[trigger] scripts@[j]).0@ != name@,
{
    let mut i: usize = 0;
    while i < scripts.len()
        invariant
            i <= scripts.len(),
            forall|j: int| 0 <= j < i ==> (#[trigger] scripts@[j]).0@ != name@,
        decreases scripts.len() - i,
    {
        if *scripts[i].0.as_str() == *name {
            return i;
        }
        i += 1;
    }
    i
}

/// Registering replaces the first script of that name, or appends.
proof fn lemma_registered(scripts: Scripts, name: Seq<char>, content: Seq<char>, place: int)
    requires
        0 <= place <= scripts.len(),
        place < scripts.len() ==> scripts[place].0 == name,
        forall|j: int| 0 <= j < place ==> (#[trigger] scripts[j]).0 != name,
    ensures
        registered(scripts, name, content) == if place < scripts.len() {
            scripts.update(place, (name, content))
        } else {
            scripts.push((name, content))
        },
    decreases scripts.len(),
{
    if scripts.len() == 0 {
        assert(seq![(name, content)] =~= scripts.push((name, content)));
    } else if place > 0 {
        let rest = scripts.drop_first();
        assert forall|j: int| 0 <= j < place - 1 implies (#[trigger] rest[j]).0 != name by {
            assert(rest[j] == scripts[j + 1]);
        }
        lemma_registered(rest, name, content, place - 1);
        if place < scripts.len() {
            assert(seq![scripts[0]] + rest.update(place - 1, (name, content)) =~= scripts.update(
                place,
                (name, content),
            ));
        } else {
            assert(seq![scripts[0]] + rest.push((name, content)) =~= scripts.push(
                (name, content),
            ));
        }
    }
}

impl AviScriptLibraryManager {
    /// No two registered scripts have the same name.
    #[verifier::type_invariant]
    spec fn wf(&self) -> bool {
        distinct_script_names(script_views(self.embedded_scripts@))
    }

    /// The registered scripts.
    pub closed spec fn scripts(&self) -> Scripts {
        script_views(self.embedded_scripts@)
    }

    /// The directory of the library.
    pub closed spec fn dir(&self) -> PathBuf {
        self.library_dir
    }

    /// A library in `library_dir` without scripts.
    pub fn new(library_dir: PathBuf) -> (manager: Self)
        ensures
            manager.dir() == library_dir,
            manager.scripts() == Scripts::empty(),
    {
        let embedded_scripts: Vec<(String, &'static str)> = Vec::new();
        assert(script_views(embedded_scripts@) =~= Scripts::empty());
        AviScriptLibraryManager { library_dir, embedded_scripts }
    }

    /// Registers the script `name`, in place of an earlier one of that name.
    pub fn register_script(&mut self, name: &str, content: &'static str)
        ensures
            final(self).dir() == old(self).dir(),
            final(self).scripts() == registered(old(self).scripts(), name@, content@),
            distinct_script_names(final(self).scripts()),
    {
        proof {
            use_type_invariant(&*self);
        }
        let ghost before = self.scripts();
        let mut scripts: Vec<(String, &'static str)> = Vec::new();
        std::mem::swap(&mut scripts, &mut self.embedded_scripts);
        let i = position(&scripts, name);
        proof {
            lemma_registered(before, name@, content@, i as int);
        }
        if i < scripts.len() {
            scripts.set(i, (name.to_owned(), content));
            assert(script_views(scripts@) =~= before.update(i as int, (name@, content@)));
            assert forall|a: int, b: int| 0 <= a < b < scripts@.len() implies (
            #[trigger] script_views(scripts@)[a]).0 != (#[trigger] script_views(scripts@)[b]).0 by {
                assert(before[a].0 != before[b].0);
            }
        } else {
            scripts.push((name.to_owned(), content));
            assert(script_views(scripts@) =~= before.push((name@, content@)));
            assert forall|a: int, b: int| 0 <= a < b < scripts@.len() implies (
            #[trigger] script_views(scripts@)[a]).0 != (#[trigger] script_views(scripts@)[b]).0 by {
                if b < before.len() {
                    assert(before[a].0 != before[b].0);
                } else {
                    assert(before[a].0 != name@);
                }
            }
        }
        self.embedded_scripts = scripts;
    }

    /// Registers each of `scripts` in turn.
    pub fn register_scripts(&mut self, scripts: &[(&str, &'static str)])
        ensures
            final(self).dir() == old(self).dir(),
            final(self).scripts() == registered_all(
                old(self).scripts(),
                scripts@.map_values(|script: (&str, &'static str)| (script.0@, script.1@)),
            ),
            distinct_script_names(final(self).scripts()),
    {
        proof {
            use_type_invariant(&*self);
        }
        let ghost more = scripts@.map_values(|script: (&str, &'static str)| (script.0@, script.1@));
        let mut i: usize = 0;
        while i < scripts.len()
            invariant
                i <= scripts.len(),
                more == scripts@.map_values(|script: (&str, &'static str)| (script.0@, script.1@)),
                self.dir() == old(self).dir(),
                distinct_script_names(self.scripts()),
                self.scripts() == registered_all(old(self).scripts(), more.take(i as int)),
            decreases scripts.len() - i,
        {
            assert(more.take(i as int + 1).drop_last() =~= more.take(i as int));
            self.register_script(scripts[i].0, scripts[i].1);
            i += 1;
        }
        assert(more.take(scripts.len() as int) =~= more);
    }

    /// The path of the script `script_name` in the library's directory: the
    /// name joined to the directory.
    pub fn get_script_path(&self, script_name: &str) -> (path: PathBuf)
        ensures
            path == joined_path(self.dir(), script_name@),
    {
        join(&self.library_dir, script_name)
    }

    /// The directory of the library.
    pub fn library_dir(&self) -> (dir: &PathBuf)
        ensures
            *dir == self.dir(),
    {
        &self.library_dir
    }

    /// The registered scripts: names with contents, in the order in which
    /// they were first registered.
    pub fn embedded_scripts(&self) -> (scripts: Vec<(String, &'static str)>)
        ensures
            script_views(scripts@) == self.scripts(),
            distinct_script_names(self.scripts()),
    {
        proof {
            use_type_invariant(self);
        }
        let mut scripts: Vec<(String, &'static str)> = Vec::new();
        let mut i: usize = 0;
        while i < self.embedded_scripts.len()
            invariant
                i <= self.embedded_scripts.len(),
                scripts@.len() == i,
                forall|j: int|
                    0 <= j < i ==> (#[trigger] scripts@[j]).0@ == self.embedded_scripts@[j].0@
                        && scripts@[j].1@ == self.embedded_scripts@[j].1@,
            decreases self.embedded_scripts.len() - i,
        {
            scripts.push((self.embedded_scripts[i].0.clone(), self.embedded_scripts[i].1));
            i += 1;
        }
        assert(script_views(scripts@) =~= self.scripts());
        scripts
    }

    /// The names of the scripts that have to be written, in the order in
    /// which the scripts were registered, where `installed[i]` is what the
    /// file of the script `i` holds now, if it is there. With `force` every
    /// script is written. No name is listed twice. Nothing is listed if
    /// `installed` has not one entry for each script.
    pub fn update_scripts(&self, force: bool, installed: &Vec<Option<String>>) -> (written: Vec<
        String,
    >)
        ensures
            views(written@) == to_write(self.scripts(), opt_views(installed@), force),
            views(written@).no_duplicates(),
    {
        let ghost scripts = self.scripts();
        let ghost found = opt_views(installed@);
        proof {
            use_type_invariant(self);
            lemma_to_write(scripts, found, force);
        }
        let mut written: Vec<String> = Vec::new();
        if installed.len() != self.embedded_scripts.len() {
            assert(views(written@) =~= Seq::<Seq<char>>::empty());
            return written;
        }
        assert(views(written@) =~= to_write(scripts.take(0), found.take(0), force));
        let mut i: usize = 0;
        while i < self.embedded_scripts.len()
            invariant
                i <= self.embedded_scripts.len(),
                scripts == self.scripts(),
                found == opt_views(installed@),
                installed@.len() == scripts.len(),
                views(written@) == to_write(scripts.take(i as int), found.take(i as int), force),
            decreases self.embedded_scripts.len() - i,
        {
            let ghost so_far = views(written@);
            assert(scripts.take(i as int + 1).drop_last() =~= scripts.take(i as int));
            assert(found.take(i as int + 1).drop_last() =~= found.take(i as int));
            let here = match &installed[i] {
                Some(text) => Some(text.as_str()),
                None => None,
            };
            if Self::needs_update(force, here, self.embedded_scripts[i].1) {
                written.push(self.embedded_scripts[i].0.clone());
                assert(views(written@) =~= so_far.push(scripts[i as int].0));
            }
            i += 1;
        }
        assert(scripts.take(scripts.len() as int) =~= scripts);
        assert(found.take(found.len() as int) =~= found);
        written
    }

    /// The names of the scripts that have to be written so that every
    /// registered script is installed with its content.
    pub fn install_scripts(&self, installed: &Vec<Option<String>>) -> (written: Vec<String>)
        ensures
            views(written@) == to_write(self.scripts(), opt_views(installed@), false),
            views(written@).no_duplicates(),
    {
        self.update_scripts(false, installed)
    }

    /// The scripts among the files of the library's directory, whose names
    /// are `files`.
    pub fn list_available_scripts(files: &Vec<String>) -> (scripts: Vec<String>)
        ensures
            views(scripts@) == scripts_among(views(files@)),
    {
        let ghost names = views(files@);
        let mut scripts: Vec<String> = Vec::new();
        assert(views(scripts@) =~= scripts_among(names.take(0)));
        let mut i: usize = 0;
        while i < files.len()
            invariant
                i <= files.len(),
                names == views(files@),
                views(scripts@) == scripts_among(names.take(i as int)),
            decreases files.len() - i,
        {
            let ghost so_far = views(scripts@);
            assert(names.take(i as int + 1).drop_last() =~= names.take(i as int));
            if is_script_name(files[i].as_str()) {
                scripts.push(files[i].clone());
                assert(views(scripts@) =~= so_far.push(names[i as int]));
            }
            i += 1;
        }
        assert(names.take(files.len() as int) =~= names);
        scripts
    }

    /// Whether the script with the content `content` has to be written,
    /// where `installed` is what the file of the script holds now, if it is
    /// there.
    pub fn needs_update(force: bool, installed: Option<&str>, content: &str) -> (write: bool)
        ensures
            write == must_write(
                force,
                match installed {
                    Some(text) => Some(text@),
                    None => None,
                },
                content@,
            ),
    {
        if force {
            true
        } else {
            match installed {
                Some(text) => !(*text == *content),
                None => true,
            }
        }
    }
}

/// Every script that is to be written is one of the scripts, and where no
/// two scripts have the same name, none is listed twice.
pub proof fn lemma_to_write(scripts: Scripts, installed: Seq<Option<Seq<char>>>, force: bool)
    ensures
        forall|k: int|
            0 <= k < to_write(scripts, installed, force).len() ==> has_script(
                scripts,
                #[trigger] to_write(scripts, installed, force)[k],
            ),
        distinct_script_names(scripts) ==> to_write(scripts, installed, force).no_duplicates(),
    decreases scripts.len(),
{
    if scripts.len() > 0 && installed.len() == scripts.len() {
        let earlier = scripts.drop_last();
        let before = to_write(earlier, installed.drop_last(), force);
        let after = to_write(scripts, installed, force);
        lemma_to_write(earlier, installed.drop_last(), force);
        assert forall|k: int| 0 <= k < after.len() implies has_script(
            scripts,
            #[trigger] after[k],
        ) by {
            if k < before.len() {
                assert(has_script(earlier, before[k]));
                let i = choose|i: int| 0 <= i < earlier.len() && (#[trigger] earlier[i]).0 == before[k];
                assert(scripts[i].0 == before[k]);
            } else {
                assert(scripts[scripts.len() - 1].0 == after[k]);
            }
        }
        if distinct_script_names(scripts) {
            assert(distinct_script_names(earlier)) by {
                assert forall|i: int, j: int| 0 <= i < j < earlier.len() implies (
                #[trigger] earlier[i]).0 != (#[trigger] earlier[j]).0 by {
                    assert(scripts[i].0 != scripts[j].0);
                }
            }
            assert forall|a: int, b: int| 0 <= a < after.len() && 0 <= b < after.len() && a
                != b implies after[a] != after[b] by {
                let low = if a < b {
                    a
                } else {
                    b
                };
                let high = if a < b {
                    b
                } else {
                    a
                };
                if high < before.len() {
                    assert(before[low] != before[high]);
                } else {
                    assert(has_script(earlier, before[low]));
                    let i = choose|i: int|
                        0 <= i < earlier.len() && (#[trigger] earlier[i]).0 == before[low];
                    assert(scripts[i].0 != scripts[scripts.len() - 1].0);
                }
            }
        }
    }
}

} // verus!
