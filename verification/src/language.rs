//! The table of languages that tokens are resolved against.

use vstd::prelude::*;
use vstd::string::StrSliceExecFns;

verus! {

/// The longest code or display name, in characters, that a table may hold.
pub const MAX_LABEL_CHARS: usize = 1024;

/// One language: its code and the name it is displayed under.
#[derive(Debug, PartialEq, Eq)]
pub struct LanguageEntry {
    /// The code the translation service knows the language by, such as `en`.
    pub code: String,
    /// The name shown to the user, such as `English`.
    pub name: String,
}

/// The model of a [`LanguageEntry`].
pub struct LanguageEntryView {
    pub code: Seq<char>,
    pub name: Seq<char>,
}

impl View for LanguageEntry {
    type V = LanguageEntryView;

    open spec fn view(&self) -> LanguageEntryView {
        LanguageEntryView { code: self.code@, name: self.name@ }
    }
}

impl LanguageEntry {
    /// An entry with the given code and display name.
    pub fn new(code: &str, name: &str) -> (entry: LanguageEntry)
        ensures
            entry@ == (LanguageEntryView { code: code@, name: name@ }),
    {
        LanguageEntry { code: code.to_owned(), name: name.to_owned() }
    }
}

/// The models of a sequence of entries.
pub open spec fn entry_views(entries: Seq<LanguageEntry>) -> Seq<LanguageEntryView> {
    entries.map_values(|e: LanguageEntry| e@)
}

/// Whether every code and display name of `entries` is at most
/// [`MAX_LABEL_CHARS`] characters long.
pub open spec fn labels_bounded(entries: Seq<LanguageEntryView>) -> bool {
    forall|i: int|
        0 <= i < entries.len() ==> (#[trigger] entries[i]).code.len() <= MAX_LABEL_CHARS
            && entries[i].name.len() <= MAX_LABEL_CHARS
}

/// Whether no code occurs twice in `entries`.
pub open spec fn codes_distinct(entries: Seq<LanguageEntryView>) -> bool {
    forall|i: int, j: int|
        0 <= i < j < entries.len() ==> (#[trigger] entries[i]).code != (#[trigger] entries[j]).code
}

/// What makes a sequence of entries a table.
pub open spec fn is_table(entries: Seq<LanguageEntryView>) -> bool {
    labels_bounded(entries) && codes_distinct(entries)
}

/// The display name of the first entry of `entries` with the given code.
pub open spec fn name_of(entries: Seq<LanguageEntryView>, code: Seq<char>) -> Option<Seq<char>>
    decreases entries.len(),
{
    if entries.len() == 0 {
        None
    } else if entries.first().code == code {
        Some(entries.first().name)
    } else {
        name_of(entries.drop_first(), code)
    }
}

/// A table of languages: entries with bounded labels and distinct codes, in
/// a fixed order.
pub struct LanguageTable {
    entries: Vec<LanguageEntry>,
}

impl View for LanguageTable {
    type V = Seq<LanguageEntryView>;

    closed spec fn view(&self) -> Seq<LanguageEntryView> {
        entry_views(self.entries@)
    }
}

impl LanguageTable {
    #[verifier::type_invariant]
    spec fn well_formed(&self) -> bool {
        is_table(entry_views(self.entries@))
    }

    /// A table of the given entries, in their order, or `None` where they are
    /// no table.
    pub fn new(entries: Vec<LanguageEntry>) -> (table: Option<LanguageTable>)
        ensures
            match table {
                Some(t) => t@ == entry_views(entries@) && is_table(t@),
                None => !is_table(entry_views(entries@)),
            },
    {
        let ghost views = entry_views(entries@);
        let mut i: usize = 0;
        while i < entries.len()
            invariant
                i <= entries.len(),
                views == entry_views(entries@),
                labels_bounded(views.take(i as int)),
                codes_distinct(views.take(i as int)),
            decreases entries.len() - i,
        {
            let entry = &entries[i];
            assert(views[i as int] == entry@);
            if entry.code.as_str().unicode_len() > MAX_LABEL_CHARS
                || entry.name.as_str().unicode_len() > MAX_LABEL_CHARS {
                return None;
            }
            let mut j: usize = 0;
            while j < i
                invariant
                    j <= i < entries.len(),
                    views == entry_views(entries@),
                    views[i as int] == entry@,
                    forall|k: int| 0 <= k < j ==> (#[trigger] views[k]).code != views[i as int].code,
                decreases i - j,
            {
                assert(views[j as int] == entries[j as int]@);
                if entries[j].code == entry.code {
                    return None;
                }
                j += 1;
            }
            i += 1;
        }
        assert(views.take(i as int) =~= views);
        Some(LanguageTable { entries })
    }

    /// The table of the languages known out of the box: English and
    /// Ukrainian.
    pub fn standard() -> (table: LanguageTable)
        ensures
            table@ == standard_entries(),
    {
        let mut entries: Vec<LanguageEntry> = Vec::new();
        entries.push(LanguageEntry::new("en", "English"));
        entries.push(LanguageEntry::new("uk", "Ukrainian"));
        proof {
            lemma_standard_is_table();
        }
        LanguageTable { entries }
    }

    /// The entries, in table order.
    pub fn entries(&self) -> (entries: &Vec<LanguageEntry>)
        ensures
            entry_views(entries@) == self@,
            is_table(self@),
    {
        proof {
            use_type_invariant(self);
        }
        &self.entries
    }

    /// The number of entries.
    pub fn len(&self) -> (n: usize)
        ensures
            n == self@.len(),
    {
        self.entries.len()
    }

    /// The display name that the table gives for `code`.
    pub fn display_name(&self, code: &str) -> (name: Option<&str>)
        ensures
            match name {
                Some(n) => name_of(self@, code@) == Some(n@),
                None => name_of(self@, code@) is None,
            },
    {
        let wanted = code.to_owned();
        let ghost views = self@;
        assert(views.skip(0) =~= views);
        let mut i: usize = 0;
        while i < self.entries.len()
            invariant
                i <= self.entries.len(),
                views == entry_views(self.entries@),
                wanted@ == code@,
                name_of(views, code@) == name_of(views.skip(i as int), code@),
            decreases self.entries.len() - i,
        {
            let entry = &self.entries[i];
            assert(views.skip(i as int).drop_first() =~= views.skip(i + 1));
            if entry.code == wanted {
                return Some(entry.name.as_str());
            }
            i += 1;
        }
        None
    }
}

/// The model of [`LanguageTable::standard`].
pub open spec fn standard_entries() -> Seq<LanguageEntryView> {
    seq![
        LanguageEntryView { code: "en"@, name: "English"@ },
        LanguageEntryView { code: "uk"@, name: "Ukrainian"@ },
    ]
}

/// The standard entries form a table.
pub proof fn lemma_standard_is_table()
    ensures
        is_table(standard_entries()),
{
    reveal_strlit("en");
    reveal_strlit("uk");
    reveal_strlit("English");
    reveal_strlit("Ukrainian");
    assert("en"@[0] != "uk"@[0]);
}

} // verus!
