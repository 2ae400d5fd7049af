//! Model catalogue, per-camera assignment and execution provider.

use vstd::prelude::*;

use crate::list::{first_where, increasing, lemma_first_where_is, lemma_grown};
use crate::order::places;
use crate::text::{trim, trimmed};

verus! {

/// What a model does.
#[derive(Debug, Clone, Copy, PartialEq, Eq, Structural)]
pub enum ModelKind {
    Detector,
    Pose2d,
}

/// A model of the catalogue.
#[derive(Debug, Clone)]
pub struct ModelEntry {
    pub id: String,
    pub name: String,
    pub kind: ModelKind,
}

/// The small letters, in order.
pub open spec fn letters() -> Seq<char> {
    "abcdefghijklmnopqrstuvwxyz"@
}

/// Whether a character is a letter or a digit that an id may have.
pub open spec fn in_ids(c: char) -> bool {
    ('a' <= c && c <= 'z') || ('A' <= c && c <= 'Z') || ('0' <= c && c <= '9')
}

/// A character as an id has it: the small letter for a capital.
pub open spec fn as_in_ids(c: char) -> char {
    if 'A' <= c && c <= 'Z' {
        letters()[c as int - 'A' as int]
    } else {
        c
    }
}

/// The first `n` characters of a name as an id has them: letters and digits, with
/// one hyphen for whatever is between two of them.
pub open spec fn slug_of(name: Seq<char>, n: nat) -> Seq<char>
    decreases n,
{
    if n == 0 {
        Seq::empty()
    } else {
        let before = slug_of(name, (n - 1) as nat);
        if !in_ids(name[n - 1]) {
            before
        } else if n > 1 && before.len() > 0 && !in_ids(name[n - 2]) {
            before.push('-').push(as_in_ids(name[n - 1]))
        } else {
            before.push(as_in_ids(name[n - 1]))
        }
    }
}

fn has_place_in_ids(c: char) -> (has: bool)
    ensures
        has == in_ids(c),
{
    ('a' <= c && c <= 'z') || ('A' <= c && c <= 'Z') || ('0' <= c && c <= '9')
}

/// The id a model's name makes.
pub fn slug(name: &String) -> (id: String)
    ensures
        id@ == slug_of(name@, name@.len()),
{
    let whole: &str = name.as_str();
    let small: &str = "abcdefghijklmnopqrstuvwxyz";
    proof {
        reveal_strlit("abcdefghijklmnopqrstuvwxyz");
        reveal_strlit("-");
    }
    let n: usize = whole.unicode_len();
    let mut id = String::new();
    let mut broken: bool = false;
    let mut i: usize = 0;
    while i < n
        invariant
            i <= n == name@.len(),
            whole@ == name@,
            small@ == letters(),
            letters().len() == 26,
            "-"@ == seq!['-'],
            id@ == slug_of(name@, i as nat),
            broken == (i > 0 && !in_ids(name@[i - 1])),
        decreases n - i,
    {
        let c: char = whole.get_char(i);
        broken = if has_place_in_ids(c) {
            let ghost before = id@;
            if broken && !id.as_str().is_empty() {
                id.append("-");
            }
            if 'A' <= c && c <= 'Z' {
                let at: usize = c as usize - 'A' as usize;
                id.append(small.substring_char(at, at + 1));
            } else {
                id.append(whole.substring_char(i, i + 1));
            }
            assert(id@ =~= slug_of(name@, (i + 1) as nat));
            false
        } else {
            true
        };
        i = i + 1;
    }
    id
}

/// A name makes an id exactly if there is a letter or a digit in it.
pub proof fn a_letter_or_a_digit_makes_an_id(name: Seq<char>)
    ensures
        slug_of(name, name.len()).len() > 0 <==> exists|i: int|
            0 <= i < name.len() && in_ids(#[trigger] name[i]),
{
    lemma_id_of_the_first(name, name.len());
}

proof fn lemma_id_of_the_first(name: Seq<char>, n: nat)
    requires
        n <= name.len(),
    ensures
        slug_of(name, n).len() > 0 <==> exists|i: int| 0 <= i < n && in_ids(#[trigger] name[i]),
    decreases n,
{
    if n > 0 {
        lemma_id_of_the_first(name, (n - 1) as nat);
        if in_ids(name[n - 1]) {
            assert(0 <= n - 1 < n && in_ids(name[n - 1]));
        }
    }
}

/// The outcome of an attempt to register a model, and whether it was a success.
#[derive(Debug, Clone)]
pub struct Outcome {
    pub text: String,
    pub good: bool,
}

/// What the user has typed into the local-model form so far.
#[derive(Debug, Clone)]
pub struct LocalForm {
    pub kind: ModelKind,
    pub path: String,
    pub name: String,
    pub input_name: String,
    pub width: u32,
    pub height: u32,
    /// Keypoint layout, for a pose model.
    pub layout: String,
    /// The outcome of the last attempt.
    pub message: Option<Outcome>,
}

/// A model ready to be written into the catalogue.
#[derive(Debug, Clone)]
pub struct Registration {
    pub kind: ModelKind,
    pub path: String,
    pub name: String,
    pub id: String,
    pub input_name: String,
    pub width: u32,
    pub height: u32,
    pub layout: Option<String>,
}

/// The size the exports of a kind overwhelmingly use.
pub open spec fn usual_size(kind: ModelKind) -> (u32, u32) {
    match kind {
        ModelKind::Detector => (640, 640),
        ModelKind::Pose2d => (192, 256),
    }
}

impl Default for LocalForm {
    fn default() -> (form: Self)
        ensures
            form.kind == ModelKind::Pose2d,
            form.path@.len() == 0,
            form.name@.len() == 0,
            form.input_name@ == "input"@,
            form.width == 192,
            form.height == 256,
            form.layout@ == "halpe26"@,
            form.message is None,
    {
        LocalForm {
            kind: ModelKind::Pose2d,
            path: String::new(),
            name: String::new(),
            input_name: "input".to_owned(),
            width: 192,
            height: 256,
            layout: "halpe26".to_owned(),
            message: None,
        }
    }
}

/// Whether the catalogue has a model with an id.
pub open spec fn catalogued(catalogue: Seq<ModelEntry>, id: Seq<char>) -> bool {
    exists|i: int| 0 <= i < catalogue.len() && (#[trigger] catalogue[i]).id@ == id
}

fn has_model(catalogue: &Vec<ModelEntry>, id: &String) -> (has: bool)
    ensures
        has == catalogued(catalogue@, id@),
{
    let mut i: usize = 0;
    while i < catalogue.len()
        invariant
            i <= catalogue.len(),
            forall|k: int| 0 <= k < i ==> (#[trigger] catalogue@[k]).id@ != id@,
        decreases catalogue.len() - i,
    {
        if catalogue[i].id == *id {
            return true;
        }
        i = i + 1;
    }
    false
}

impl LocalForm {
    /// Chooses what the model does. The size is a property of the checkpoint,
    /// but each kind has a size its exports overwhelmingly use, and a stale one
    /// from the other kind is wrong for certain rather than probably right.
    pub fn choose_kind(&mut self, kind: ModelKind)
        ensures
            *final(self) == (LocalForm {
                kind,
                width: usual_size(kind).0,
                height: usual_size(kind).1,
                ..*old(self)
            }),
    {
        self.kind = kind;
        match kind {
            ModelKind::Detector => {
                self.width = 640;
                self.height = 640;
            },
            ModelKind::Pose2d => {
                self.width = 192;
                self.height = 256;
            },
        }
    }

    /// The name to register under.
    pub open spec fn name_for(self, stem: Seq<char>) -> Seq<char> {
        if trimmed(self.name@).len() == 0 {
            stem
        } else {
            trimmed(self.name@)
        }
    }

    /// The id to register under.
    pub open spec fn id_for(self, stem: Seq<char>) -> Seq<char> {
        slug_of(self.name_for(stem), self.name_for(stem).len())
    }

    /// The file the form names.
    pub fn file(&self) -> (path: String)
        ensures
            path@ == trimmed(self.path@),
    {
        trim(&self.path)
    }

    /// The name to register under. It falls back to the file's own name, which
    /// is what the user calls the file already.
    pub fn chosen_name(&self, stem: &String) -> (name: String)
        ensures
            name@ == self.name_for(stem@),
    {
        let name: String = trim(&self.name);
        if name.as_str().is_empty() {
            stem.clone()
        } else {
            name
        }
    }

    /// Validates the form, given whether there is a file at its path and what that
    /// file is called without its extension. An id the catalogue has already is
    /// refused: a user entry with the id of a built-in one would silently replace
    /// it.
    pub fn registered(
        &self,
        is_file: bool,
        stem: &String,
        catalogue: &Vec<ModelEntry>,
    ) -> (registration: Result<Registration, String>)
        ensures
            match registration {
                Ok(entry) => {
                    &&& is_file
                    &&& self.id_for(stem@).len() > 0
                    &&& !catalogued(catalogue@, self.id_for(stem@))
                    &&& entry.kind == self.kind
                    &&& entry.path@ == trimmed(self.path@)
                    &&& entry.name@ == self.name_for(stem@)
                    &&& entry.id@ == slug_of(entry.name@, entry.name@.len())
                    &&& entry.input_name@ == trimmed(self.input_name@)
                    &&& entry.width == self.width
                    &&& entry.height == self.height
                    &&& match entry.layout {
                        Some(layout) => self.kind == ModelKind::Pose2d && layout@
                            == self.layout@,
                        None => self.kind != ModelKind::Pose2d,
                    }
                },
                Err(error) => if !is_file {
                    error@ == "there is no file at "@ + trimmed(self.path@)
                } else if self.id_for(stem@).len() == 0 {
                    error@ == "the name needs at least one letter or digit in it"@
                } else {
                    catalogued(catalogue@, self.id_for(stem@)) && error@
                        == "the catalogue already has a model called "@ + self.id_for(stem@)
                        + "; pick another name"@
                },
            },
    {
        let path: String = trim(&self.path);
        if !is_file {
            let mut error = "there is no file at ".to_owned();
            error.append(path.as_str());
            return Err(error);
        }
        let name: String = self.chosen_name(stem);
        let id: String = slug(&name);
        if id.as_str().is_empty() {
            return Err("the name needs at least one letter or digit in it".to_owned());
        }
        if has_model(catalogue, &id) {
            let mut error = "the catalogue already has a model called ".to_owned();
            error.append(id.as_str());
            error.append("; pick another name");
            return Err(error);
        }
        let layout: Option<String> = if self.kind == ModelKind::Pose2d {
            Some(self.layout.clone())
        } else {
            None
        };
        Ok(
            Registration {
                kind: self.kind,
                path,
                name,
                id,
                input_name: trim(&self.input_name),
                width: self.width,
                height: self.height,
                layout,
            },
        )
    }

    /// Takes note of how the attempt went. A form that was registered is cleared
    /// for the next.
    pub fn settled(&mut self, outcome: Result<String, String>)
        ensures
            match (outcome, final(self).message) {
                (Ok(name), Some(message)) => {
                    &&& message.good
                    &&& message.text@ == "registered "@ + name@
                    &&& final(self).path@.len() == 0
                    &&& final(self).name@.len() == 0
                    &&& *final(self) == (LocalForm {
                        path: final(self).path,
                        name: final(self).name,
                        message: final(self).message,
                        ..*old(self)
                    })
                },
                (Err(error), Some(message)) => {
                    &&& !message.good
                    &&& message.text == error
                    &&& *final(self) == (LocalForm {
                        message: final(self).message,
                        ..*old(self)
                    })
                },
                (_, None) => false,
            },
    {
        match outcome {
            Ok(name) => {
                let mut text = "registered ".to_owned();
                text.append(name.as_str());
                self.path = String::new();
                self.name = String::new();
                self.message = Some(Outcome { text, good: true });
            },
            Err(text) => {
                self.message = Some(Outcome { text, good: false });
            },
        }
    }
}

/// What the models panel remembers.
#[derive(Debug, Clone)]
pub struct ModelsPanel {
    pub catalogue: Vec<ModelEntry>,
    /// Set once the catalogue has been read, so it is not re-read every frame.
    pub loaded: bool,
    pub load_error: Option<String>,
    /// The form for registering an ONNX file the user already has.
    pub local: LocalForm,
}

impl Default for ModelsPanel {
    fn default() -> (panel: Self)
        ensures
            panel.catalogue@.len() == 0,
            !panel.loaded,
            panel.load_error is None,
            panel.local.kind == ModelKind::Pose2d,
            panel.local.path@.len() == 0,
            panel.local.name@.len() == 0,
            panel.local.input_name@ == "input"@,
            panel.local.width == 192,
            panel.local.height == 256,
            panel.local.layout@ == "halpe26"@,
            panel.local.message is None,
    {
        ModelsPanel {
            catalogue: Vec::new(),
            loaded: false,
            load_error: None,
            local: LocalForm::default(),
        }
    }
}

impl ModelsPanel {
    /// Whether the catalogue is to be read now. It is tried once, whatever comes
    /// of it.
    pub fn ensure_catalogue(&mut self) -> (read: bool)
        ensures
            read == !old(self).loaded,
            *final(self) == (ModelsPanel { loaded: true, ..*old(self) }),
    {
        let read: bool = !self.loaded;
        self.loaded = true;
        read
    }

    /// Takes in the catalogue as it was read. One that could not be read leaves
    /// the old one standing.
    pub fn catalogue_read(&mut self, models: Result<Vec<ModelEntry>, String>)
        ensures
            match models {
                Ok(models) => *final(self) == (ModelsPanel { catalogue: models, ..*old(self) }),
                Err(error) => *final(self) == (ModelsPanel {
                    load_error: Some(error),
                    ..*old(self)
                }),
            },
    {
        match models {
            Ok(models) => {
                self.catalogue = models;
            },
            Err(error) => {
                self.load_error = Some(error);
            },
        }
    }

    /// Takes note of how a registration went. A success has the catalogue read
    /// again, so the new entry appears without a restart.
    pub fn register_local(&mut self, outcome: Result<String, String>)
        ensures
            final(self).loaded == (old(self).loaded && outcome is Err),
            final(self).catalogue == old(self).catalogue,
            final(self).load_error == old(self).load_error,
            final(self).local.message is Some,
            final(self).local.message->0.good == outcome is Ok,
            match outcome {
                Ok(name) => {
                    &&& final(self).local.message->0.text@ == "registered "@ + name@
                    &&& final(self).local.path@.len() == 0
                    &&& final(self).local.name@.len() == 0
                    &&& final(self).local == (LocalForm {
                        path: final(self).local.path,
                        name: final(self).local.name,
                        message: final(self).local.message,
                        ..old(self).local
                    })
                },
                Err(error) => {
                    &&& final(self).local.message->0.text == error
                    &&& final(self).local == (LocalForm {
                        message: final(self).local.message,
                        ..old(self).local
                    })
                },
            },
    {
        if outcome.is_ok() {
            self.loaded = false;
        }
        self.local.settled(outcome);
    }

    /// The name shown for a selected model: its own, or the id where the
    /// catalogue does not have it.
    pub fn current_name(&self, selected: &String) -> (name: String)
        ensures
            ({
                let at = first_where(self.catalogue@, |entry: ModelEntry| entry.id@ == selected@);
                name@ == if at < self.catalogue@.len() {
                    self.catalogue@[at].name@
                } else {
                    selected@
                }
            }),
    {
        let ghost wanted = |entry: ModelEntry| entry.id@ == selected@;
        let mut i: usize = 0;
        while i < self.catalogue.len()
            invariant
                i <= self.catalogue.len(),
                wanted == (|entry: ModelEntry| entry.id@ == selected@),
                forall|k: int| 0 <= k < i ==> !wanted(#[trigger] self.catalogue@[k]),
            decreases self.catalogue.len() - i,
        {
            if self.catalogue[i].id == *selected {
                proof {
                    lemma_first_where_is(self.catalogue@, wanted, i as int);
                }
                return self.catalogue[i].name.clone();
            }
            i = i + 1;
        }
        proof {
            lemma_first_where_is(self.catalogue@, wanted, i as int);
        }
        selected.clone()
    }

    /// The models of one kind, for a picker to offer.
    pub fn of_kind(&self, kind: ModelKind) -> (found: Vec<usize>)
        ensures
            places(found@) == kind_among(self.catalogue@, kind, self.catalogue@.len()),
    {
        let mut found: Vec<usize> = Vec::new();
        let mut i: usize = 0;
        proof {
            assert(places(found@) =~= Seq::empty());
        }
        while i < self.catalogue.len()
            invariant
                i <= self.catalogue.len(),
                places(found@) == kind_among(self.catalogue@, kind, i as nat),
            decreases self.catalogue.len() - i,
        {
            if self.catalogue[i].kind == kind {
                let ghost before = found@;
                found.push(i);
                assert(places(found@) =~= places(before).push(i as int));
            }
            i = i + 1;
        }
        found
    }
}

/// The models of one kind among the first `n`.
pub open spec fn kind_among(catalogue: Seq<ModelEntry>, kind: ModelKind, n: nat) -> Seq<int>
    decreases n,
{
    if n == 0 {
        Seq::empty()
    } else {
        let before = kind_among(catalogue, kind, (n - 1) as nat);
        if catalogue[n - 1].kind == kind {
            before.push(n - 1)
        } else {
            before
        }
    }
}

/// What a picker offers a model as.
pub fn offered_as(entry: &ModelEntry, installed: bool) -> (text: String)
    ensures
        text@ == if installed {
            entry.name@
        } else {
            entry.name@ + " (not installed)"@
        },
{
    let mut text = entry.name.clone();
    if !installed {
        text.append(" (not installed)");
    }
    text
}

/// How far an installation has come.
#[derive(Debug, Clone)]
pub enum Stage {
    Downloading,
    Verifying,
    Extracting,
    Done,
    Failed(String),
}

/// What a model's row shows below its name.
#[derive(Debug, Clone)]
pub enum Progress {
    Nothing,
    /// A bar for the stage that is running.
    Bar,
    /// Why the installation failed.
    Failed(String),
}

/// What a model's row offers.
#[derive(Debug, Clone)]
pub struct Row {
    /// Whether the model can be removed, being installed.
    pub removable: bool,
    /// Whether it can be installed, being neither installed nor on the way.
    pub installable: bool,
    pub progress: Progress,
}

/// Whether an installation is under way.
pub open spec fn busy(stage: Option<Stage>) -> bool {
    match stage {
        Some(Stage::Downloading) => true,
        Some(Stage::Verifying) => true,
        Some(Stage::Extracting) => true,
        _ => false,
    }
}

/// What a model's row offers, given whether it is installed and how far an
/// installation has come.
pub fn row(installed: bool, stage: &Option<Stage>) -> (row: Row)
    ensures
        row.removable == installed,
        row.installable == (!installed && !busy(*stage)),
        match row.progress {
            Progress::Nothing => installed || stage is None,
            Progress::Bar => !installed && stage is Some && !(stage->0 is Failed),
            Progress::Failed(text) => !installed && match *stage {
                Some(Stage::Failed(error)) => text@ == "failed: "@ + error@,
                _ => false,
            },
        },
{
    let progress: Progress = if installed {
        Progress::Nothing
    } else {
        match stage {
            None => Progress::Nothing,
            Some(Stage::Failed(error)) => {
                let mut text = "failed: ".to_owned();
                text.append(error.as_str());
                Progress::Failed(text)
            },
            Some(_) => Progress::Bar,
        }
    };
    let under_way: bool = match stage {
        Some(Stage::Downloading) => true,
        Some(Stage::Verifying) => true,
        Some(Stage::Extracting) => true,
        _ => false,
    };
    Row { removable: installed, installable: !installed && !under_way, progress }
}

/// Exactly the letters and the digits have a place in an id, the large letters as the
/// small ones.
pub proof fn an_id_is_small_letters_and_digits(c: char)
    ensures
        in_ids(c) <==> 0x61 <= c as u32 <= 0x7a || 0x41 <= c as u32 <= 0x5a || 0x30 <= c as u32
            <= 0x39,
        0x41 <= c as u32 <= 0x5a ==> as_in_ids(c) as u32 == c as u32 + 0x20,
        !(0x41 <= c as u32 <= 0x5a) ==> as_in_ids(c) == c,
{
    reveal_strlit("abcdefghijklmnopqrstuvwxyz");
}

proof fn lemma_id_of_a_prefix(name: Seq<char>, other: Seq<char>, n: nat)
    requires
        n <= name.len(),
        n <= other.len(),
        name.take(n as int) == other.take(n as int),
    ensures
        slug_of(name, n) == slug_of(other, n),
    decreases n,
{
    if n > 0 {
        assert(name.take(n - 1) =~= name.take(n as int).take(n - 1));
        assert(other.take(n - 1) =~= other.take(n as int).take(n - 1));
        lemma_id_of_a_prefix(name, other, (n - 1) as nat);
        assert(name[n - 1] == name.take(n as int)[n - 1]);
        assert(other[n - 1] == other.take(n as int)[n - 1]);
        if n > 1 {
            assert(name[n - 2] == name.take(n as int)[n - 2]);
            assert(other[n - 2] == other.take(n as int)[n - 2]);
        }
    }
}

/// A name of letters and digits makes an id of as many, each in its place.
pub proof fn a_plain_name_is_its_own_id(name: Seq<char>, n: nat)
    requires
        n <= name.len(),
        forall|i: int| 0 <= i < name.len() ==> in_ids(#[trigger] name[i]),
    ensures
        slug_of(name, n) == name.take(n as int).map_values(|c: char| as_in_ids(c)),
    decreases n,
{
    let small = |c: char| as_in_ids(c);
    if n > 0 {
        a_plain_name_is_its_own_id(name, (n - 1) as nat);
        assert(name.take(n as int).map_values(small) =~= name.take(n - 1).map_values(small).push(
            as_in_ids(name[n - 1]),
        ));
    } else {
        assert(name.take(0).map_values(small) =~= Seq::empty());
    }
}

/// Where a name is broken by anything else, the id is that of what comes before and that
/// of what comes after, with one dash between where there is anything on both sides.
pub proof fn a_break_in_a_name_is_one_dash(before: Seq<char>, between: char, after: Seq<char>)
    requires
        !in_ids(between),
    ensures
        ({
            let name = before.push(between) + after;
            let (first, second) = (slug_of(before, before.len()), slug_of(after, after.len()));
            slug_of(name, name.len()) == if first.len() == 0 {
                second
            } else if second.len() == 0 {
                first
            } else {
                first.push('-') + second
            }
        }),
    decreases after.len(),
{
    let start = before.push(between);
    let name = start + after;
    lemma_id_of_a_prefix(name, before, before.len());
    assert(name.take(before.len() as int) =~= before.take(before.len() as int));
    let first = slug_of(before, before.len());
    assert(slug_of(name, start.len()) == first);
    if after.len() == 0 {
        assert(name.len() == start.len());
    } else {
        let fewer = after.drop_last();
        a_break_in_a_name_is_one_dash(before, between, fewer);
        let shorter = start + fewer;
        assert(name.take(shorter.len() as int) =~= shorter.take(shorter.len() as int));
        lemma_id_of_a_prefix(name, shorter, shorter.len());
        assert(after.take(fewer.len() as int) =~= fewer.take(fewer.len() as int));
        lemma_id_of_a_prefix(after, fewer, fewer.len());
        let n = name.len() as int;
        assert(name[n - 1] == after.last());
        if after.len() > 1 {
            assert(name[n - 2] == after[after.len() - 2]);
        } else {
            assert(name[n - 2] == between);
        }
        let second = slug_of(after, after.len());
        let second_before = slug_of(fewer, fewer.len());
        lemma_an_id_starts_at_once(fewer);
        if in_ids(after.last()) {
            if second_before.len() == 0 {
                assert(second =~= seq![as_in_ids(after.last())]);
                if first.len() > 0 {
                    assert(slug_of(name, name.len()) =~= first.push('-') + second);
                } else {
                    assert(slug_of(name, name.len()) =~= second);
                }
            } else if first.len() > 0 {
                assert(slug_of(name, name.len()) =~= first.push('-') + second);
            } else {
                assert(slug_of(name, name.len()) =~= second);
            }
        }
    }
}

/// Nothing in a name without an id has a place in ids.
proof fn lemma_an_id_starts_at_once(name: Seq<char>)
    ensures
        slug_of(name, name.len()).len() == 0 ==> forall|i: int|
            0 <= i < name.len() ==> !in_ids(#[trigger] name[i]),
{
    a_letter_or_a_digit_makes_an_id(name);
}

/// Exactly the models of a kind are found, in order.
pub proof fn every_model_of_a_kind_is_found(catalogue: Seq<ModelEntry>, kind: ModelKind, n: nat)
    requires
        n <= catalogue.len(),
    ensures
        increasing(kind_among(catalogue, kind, n)),
        forall|i: int| #[trigger]
            kind_among(catalogue, kind, n).contains(i) <==> 0 <= i < n && catalogue[i].kind == kind,
    decreases n,
{
    if n > 0 {
        every_model_of_a_kind_is_found(catalogue, kind, (n - 1) as nat);
        lemma_grown(
            kind_among(catalogue, kind, (n - 1) as nat),
            kind_among(catalogue, kind, n),
            catalogue[n - 1].kind == kind,
            n - 1,
        );
    }
}

/// A model that is being fetched, checked or unpacked is busy; one that failed or was
/// never asked for is not. A detector looks at a square, a pose model at a figure that
/// stands.
pub proof fn a_model_is_busy_until_it_is_unpacked(stage: Stage)
    ensures
        busy(Some(stage)) <==> stage is Downloading || stage is Verifying || stage is Extracting,
        !busy(None),
        usual_size(ModelKind::Detector) == (640u32, 640u32),
        usual_size(ModelKind::Pose2d) == (192u32, 256u32),
{
}

/// A model goes by the name it was given, without the space around it, and by that of
/// its file where it was given none.
pub proof fn a_model_without_a_name_goes_by_its_file(form: LocalForm, stem: Seq<char>)
    ensures
        trimmed(form.name@).len() > 0 ==> form.name_for(stem) == trimmed(form.name@),
        trimmed(form.name@).len() == 0 ==> form.name_for(stem) == stem,
        form.id_for(stem) == slug_of(form.name_for(stem), form.name_for(stem).len()),
{
}

/// An id is taken exactly if some model has it.
pub proof fn an_id_is_taken_by_a_model(catalogue: Seq<ModelEntry>, entry: ModelEntry, id: Seq<char>)
    ensures
        catalogued(catalogue.push(entry), id) <==> catalogued(catalogue, id) || entry.id@ == id,
        !catalogued(Seq::empty(), id),
{
    let more = catalogue.push(entry);
    if catalogued(catalogue, id) {
        let i = choose|i: int| 0 <= i < catalogue.len() && (#[trigger] catalogue[i]).id@ == id;
        assert(more[i].id@ == id);
    }
    assert(more[catalogue.len() as int] == entry);
    if catalogued(more, id) && entry.id@ != id {
        let i = choose|i: int| 0 <= i < more.len() && (#[trigger] more[i]).id@ == id;
        assert(catalogue[i].id@ == id);
    }
}

} // verus!
