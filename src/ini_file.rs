use vstd::prelude::*;

verus! {

/// One section of an ini document: its title (none for the properties that
/// precede the first title) and its properties, in file order.
pub struct IniSection {
    pub name: Option<String>,
    pub entries: Vec<(String, String)>,
}

pub open spec fn entries_view(e: Seq<(String, String)>) -> Seq<(Seq<char>, Seq<char>)> {
    e.map_values(|p: (String, String)| (p.0@, p.1@))
}

pub open spec fn title_view(n: Option<String>) -> Option<Seq<char>> {
    match n {
        Some(s) => Some(s@),
        None => None,
    }
}

impl View for IniSection {
    type V = (Option<Seq<char>>, Seq<(Seq<char>, Seq<char>)>);

    open spec fn view(&self) -> Self::V {
        (title_view(self.name), entries_view(self.entries@))
    }
}

pub open spec fn sections_view(v: Seq<IniSection>) -> Seq<(Option<Seq<char>>, Seq<(Seq<char>, Seq<char>)>)> {
    v.map_values(|s: IniSection| s@)
}

/// The sections that the ini parser reads from a text, if it accepts it.
pub uninterp spec fn ini_document(text: Seq<char>) -> Option<Seq<(Option<Seq<char>>, Seq<(Seq<char>, Seq<char>)>)>>;

#[verifier::external_type_specification]
#[verifier::external_body]
pub struct ExParseError(ini::ParseError);

/// Relies on `ini::Ini::load_from_str`: it accepts or refuses the text as a
/// whole, as a function of the text alone, and `Ini::iter` and
/// `Properties::iter` then yield the sections and their properties in the
/// order of the file.
#[verifier::external_body]
pub(crate) fn load_ini(text: &str) -> (r: Result<Vec<IniSection>, ini::ParseError>)
    ensures
        r is Ok <==> ini_document(text@) is Some,
        r matches Ok(v) ==> ini_document(text@) == Some(sections_view(v@)),
{
    ini::Ini::load_from_str(text).map(|doc| doc.iter().map(|(name, props)| IniSection {
        name: name.map(String::from),
        entries: props.iter().map(|(k, v)| (k.to_string(), v.to_string())).collect(),
    }).collect())
}

/// The first value given to `key`, as `ini::Properties::get` returns it.
pub open spec fn first_value(e: Seq<(Seq<char>, Seq<char>)>, key: Seq<char>) -> Option<Seq<char>>
    decreases e.len(),
{
    if e.len() == 0 {
        None
    } else if e[0].0 == key {
        Some(e[0].1)
    } else {
        first_value(e.drop_first(), key)
    }
}

/// Looks up the first value given to `key` in a section.
pub fn section_get<'a>(sec: &'a IniSection, key: &str) -> (r: Option<&'a String>)
    ensures
        first_value(sec@.1, key@) == (match r {
            Some(v) => Some(v@),
            None => None::<Seq<char>>,
        }),
{
    let mut i: usize = 0;
    assert(sec@.1.skip(0) =~= sec@.1);
    while i < sec.entries.len()
        invariant
            i <= sec.entries@.len(),
            first_value(sec@.1.skip(i as int), key@) == first_value(sec@.1, key@),
        decreases sec.entries@.len() - i,
    {
        let entry = &sec.entries[i];
        assert(sec@.1[i as int] == (entry.0@, entry.1@));
        assert(sec@.1.skip(i as int).drop_first() =~= sec@.1.skip(i + 1));
        if crate::text::same_text(entry.0.as_str(), key) {
            return Some(&entry.1);
        }
        i = i + 1;
    }
    None
}

} // verus!
