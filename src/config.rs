//! The settings document: a TOML file with one table per style. Each table
//! holds the style's `id`, an integer no less than zero, and one string per
//! setting.
use vstd::prelude::*;
use vstd::utf8::{decode_utf8, valid_utf8};
use crate::decimal::{decimal_text, push_decimal};
use crate::model::{settings_view, styles_view, Setting, SettingView, Style, StyleView};

verus! {

/// A value inside a style's table, as far as the reader looks at it.
pub enum Field {
    Integer(i64),
    Text(String),
    Other,
}

/// What a field holds, as plain values.
pub enum FieldView {
    Integer(i64),
    Text(Seq<char>),
    Other,
}

impl View for Field {
    type V = FieldView;

    open spec fn view(&self) -> FieldView {
        match self {
            Field::Integer(n) => FieldView::Integer(*n),
            Field::Text(s) => FieldView::Text(s@),
            Field::Other => FieldView::Other,
        }
    }
}

/// A top-level value of the document: a table of fields in document order,
/// or anything else.
pub enum Entry {
    Table(Vec<(String, Field)>),
    Other,
}

/// What a top-level entry holds, as plain values.
pub enum EntryView {
    Table(Seq<(Seq<char>, FieldView)>),
    Other,
}

/// The views of a table's fields.
pub open spec fn fields_view(f: Seq<(String, Field)>) -> Seq<(Seq<char>, FieldView)> {
    f.map_values(|p: (String, Field)| (p.0@, p.1@))
}

impl View for Entry {
    type V = EntryView;

    open spec fn view(&self) -> EntryView {
        match self {
            Entry::Table(f) => EntryView::Table(fields_view(f@)),
            Entry::Other => EntryView::Other,
        }
    }
}

/// The views of a document's top-level entries.
pub open spec fn sections_view(s: Seq<(String, Entry)>) -> Seq<(Seq<char>, EntryView)> {
    s.map_values(|p: (String, Entry)| (p.0@, p.1@))
}

/// Why a settings document could not be read.
#[derive(Debug)]
pub enum ConfigError {
    NotUtf8,
    Syntax,
    NotTable(String),
    IdNotInteger(String),
    /// The style's id is below zero.
    NegativeId(String),
    /// A setting key and the style it stands in.
    SettingNotString(String, String),
    MissingId(String),
}

/// A document error, with names as plain sequences of characters.
pub enum ConfigFault {
    NotUtf8,
    Syntax,
    NotTable(Seq<char>),
    IdNotInteger(Seq<char>),
    NegativeId(Seq<char>),
    SettingNotString(Seq<char>, Seq<char>),
    MissingId(Seq<char>),
}

impl View for ConfigError {
    type V = ConfigFault;

    open spec fn view(&self) -> ConfigFault {
        match self {
            ConfigError::NotUtf8 => ConfigFault::NotUtf8,
            ConfigError::Syntax => ConfigFault::Syntax,
            ConfigError::NotTable(n) => ConfigFault::NotTable(n@),
            ConfigError::IdNotInteger(n) => ConfigFault::IdNotInteger(n@),
            ConfigError::NegativeId(n) => ConfigFault::NegativeId(n@),
            ConfigError::SettingNotString(k, n) => ConfigFault::SettingNotString(k@, n@),
            ConfigError::MissingId(n) => ConfigFault::MissingId(n@),
        }
    }
}

/// The top-level entries of a TOML document in document order, or `None`
/// where the text is not a TOML document.
pub uninterp spec fn toml_sections(text: Seq<char>) -> Option<Seq<(Seq<char>, EntryView)>>;

#[verifier::external_type_specification]
#[verifier::external_body]
pub struct ExTomlError(toml::de::Error);

/// Relies on toml's `FromStr for Table` (with `preserve_order`): parses the
/// text as a TOML document, whose entries it then yields in document order,
/// as `Value`s whose variants tell tables, integers and strings apart.
#[verifier::external_body]
fn parse_toml(text: &str) -> (r: Result<Vec<(String, Entry)>, toml::de::Error>)
    ensures
        r is Ok <==> toml_sections(text@) is Some,
        r matches Ok(d) ==> toml_sections(text@) == Some(sections_view(d@)),
{
    let mut sections = Vec::new();
    for (name, value) in text.parse::<toml::Table>()? {
        let entry = match value {
            toml::Value::Table(table) => Entry::Table(table.into_iter().map(|(k, v)| (k, match v {
                toml::Value::Integer(n) => Field::Integer(n),
                toml::Value::String(s) => Field::Text(s),
                _ => Field::Other,
            })).collect()),
            _ => Entry::Other,
        };
        sections.push((name, entry));
    }
    Ok(sections)
}

/// Relies on `std::str::from_utf8`: it accepts exactly the valid UTF-8
/// byte strings and then yields their characters.
#[verifier::external_body]
fn utf8_text(bytes: &[u8]) -> (r: Option<&str>)
    ensures
        r is Some <==> valid_utf8(bytes@),
        r matches Some(s) ==> s@ == decode_utf8(bytes@),
{
    std::str::from_utf8(bytes).ok()
}

/// Reads the fields of the table `name` in order: `id` must be an integer
/// no less than zero,
/// every other key a string, which becomes a setting with an empty comment.
/// The first field that breaks this decides the error.
pub open spec fn read_fields(name: Seq<char>, fields: Seq<(Seq<char>, FieldView)>) -> Result<
    (Option<i64>, Seq<SettingView>),
    ConfigFault,
>
    decreases fields.len(),
{
    if fields.len() == 0 {
        Ok((None, Seq::empty()))
    } else {
        match read_fields(name, fields.drop_last()) {
            Err(e) => Err(e),
            Ok((id, settings)) => {
                let (key, value) = fields.last();
                if key == "id"@ {
                    match value {
                        FieldView::Integer(n) => if n < 0 {
                            Err(ConfigFault::NegativeId(name))
                        } else {
                            Ok((Some(n), settings))
                        },
                        _ => Err(ConfigFault::IdNotInteger(name)),
                    }
                } else {
                    match value {
                        FieldView::Text(v) => Ok(
                            (id, settings.push(SettingView { key, val: v, comment: Seq::empty() })),
                        ),
                        _ => Err(ConfigFault::SettingNotString(key, name)),
                    }
                }
            },
        }
    }
}

/// Reads one top-level entry as a style.
pub open spec fn read_section(name: Seq<char>, entry: EntryView) -> Result<StyleView, ConfigFault> {
    match entry {
        EntryView::Other => Err(ConfigFault::NotTable(name)),
        EntryView::Table(fields) => match read_fields(name, fields) {
            Err(e) => Err(e),
            Ok((None, _)) => Err(ConfigFault::MissingId(name)),
            Ok((Some(id), settings)) => Ok(StyleView { id, name, settings }),
        },
    }
}

/// Reads every entry in order; the first one that fails decides the error.
pub open spec fn read_document(sections: Seq<(Seq<char>, EntryView)>) -> Result<
    Seq<StyleView>,
    ConfigFault,
>
    decreases sections.len(),
{
    if sections.len() == 0 {
        Ok(Seq::empty())
    } else {
        match read_document(sections.drop_last()) {
            Err(e) => Err(e),
            Ok(styles) => match read_section(sections.last().0, sections.last().1) {
                Err(e) => Err(e),
                Ok(s) => Ok(styles.push(s)),
            },
        }
    }
}

/// What reading the document text gives.
pub open spec fn config_of(text: Seq<char>) -> Result<Seq<StyleView>, ConfigFault> {
    match toml_sections(text) {
        None => Err(ConfigFault::Syntax),
        Some(sections) => read_document(sections),
    }
}

/// What reading the document's bytes gives.
pub open spec fn config_of_bytes(bytes: Seq<u8>) -> Result<Seq<StyleView>, ConfigFault> {
    if valid_utf8(bytes) {
        config_of(decode_utf8(bytes))
    } else {
        Err(ConfigFault::NotUtf8)
    }
}

/// The view of a reading result.
pub open spec fn styles_result_view(r: Result<Vec<Style>, ConfigError>) -> Result<
    Seq<StyleView>,
    ConfigFault,
> {
    match r {
        Ok(s) => Ok(styles_view(s@)),
        Err(e) => Err(e@),
    }
}

/// Reads the fields of the table `name`.
fn read_fields_exec(name: &String, fields: &Vec<(String, Field)>) -> (r: Result<
    (Option<i64>, Vec<Setting>),
    ConfigError,
>)
    ensures
        r matches Ok((id, s)) ==> read_fields(name@, fields_view(fields@)) == Ok::<
            (Option<i64>, Seq<SettingView>),
            ConfigFault,
        >((id, settings_view(s@))),
        r matches Err(e) ==> read_fields(name@, fields_view(fields@)) == Err::<
            (Option<i64>, Seq<SettingView>),
            ConfigFault,
        >(e@),
{
    let id_key = String::from_str("id");
    let mut id: Option<i64> = None;
    let mut settings: Vec<Setting> = Vec::new();
    let mut i: usize = 0;
    proof {
        assert(fields_view(fields@).take(0) =~= Seq::empty());
        assert(settings_view(settings@) =~= Seq::empty());
    }
    while i < fields.len()
        invariant
            0 <= i <= fields@.len(),
            id_key@ == "id"@,
            read_fields(name@, fields_view(fields@).take(i as int)) == Ok::<
                (Option<i64>, Seq<SettingView>),
                ConfigFault,
            >((id, settings_view(settings@))),
        decreases fields@.len() - i,
    {
        let (key, value) = &fields[i];
        proof {
            let fv = fields_view(fields@);
            assert(fv.take(i + 1).drop_last() =~= fv.take(i as int));
            assert(fv.take(i + 1).last() == (key@, value@));
        }
        if *key == id_key {
            match value {
                Field::Integer(n) => {
                    if *n < 0 {
                        proof {
                            lemma_fields_error_stays(name@, fields_view(fields@), i + 1);
                        }
                        return Err(ConfigError::NegativeId(name.clone()));
                    }
                    id = Some(*n);
                },
                _ => {
                    proof {
                        lemma_fields_error_stays(name@, fields_view(fields@), i + 1);
                    }
                    return Err(ConfigError::IdNotInteger(name.clone()));
                },
            }
        } else {
            match value {
                Field::Text(v) => {
                    let ghost before = settings@;
                    settings.push(Setting::new(key.clone(), v.clone(), String::new()));
                    proof {
                        assert(settings_view(settings@) =~= settings_view(before).push(
                            SettingView { key: key@, val: v@, comment: Seq::empty() },
                        ));
                    }
                },
                _ => {
                    proof {
                        lemma_fields_error_stays(name@, fields_view(fields@), i + 1);
                    }
                    return Err(ConfigError::SettingNotString(key.clone(), name.clone()));
                },
            }
        }
        i = i + 1;
    }
    proof {
        assert(fields_view(fields@).take(i as int) =~= fields_view(fields@));
    }
    Ok((id, settings))
}

/// Reads one top-level entry of the document as a style.
pub fn read_section_exec(name: &String, entry: &Entry) -> (r: Result<Style, ConfigError>)
    ensures
        r matches Ok(s) ==> read_section(name@, entry@) == Ok::<StyleView, ConfigFault>(s@),
        r matches Err(e) ==> read_section(name@, entry@) == Err::<StyleView, ConfigFault>(e@),
{
    match entry {
        Entry::Other => Err(ConfigError::NotTable(name.clone())),
        Entry::Table(fields) => match read_fields_exec(name, fields) {
            Err(e) => Err(e),
            Ok((None, _)) => Err(ConfigError::MissingId(name.clone())),
            Ok((Some(id), settings)) => Ok(Style { id, name: name.clone(), settings }),
        },
    }
}

/// Reads the styles of a document's top-level entries, in order.
pub fn read_styles(sections: &Vec<(String, Entry)>) -> (r: Result<Vec<Style>, ConfigError>)
    ensures
        styles_result_view(r) == read_document(sections_view(sections@)),
{
    let mut styles: Vec<Style> = Vec::new();
    let mut i: usize = 0;
    proof {
        assert(sections_view(sections@).take(0) =~= Seq::empty());
        assert(styles_view(styles@) =~= Seq::empty());
    }
    while i < sections.len()
        invariant
            0 <= i <= sections@.len(),
            read_document(sections_view(sections@).take(i as int)) == Ok::<
                Seq<StyleView>,
                ConfigFault,
            >(styles_view(styles@)),
        decreases sections@.len() - i,
    {
        let (name, entry) = &sections[i];
        proof {
            let sv = sections_view(sections@);
            assert(sv.take(i + 1).drop_last() =~= sv.take(i as int));
            assert(sv.take(i + 1).last() == (name@, entry@));
        }
        match read_section_exec(name, entry) {
            Err(e) => {
                proof {
                    lemma_document_error_stays(sections_view(sections@), i + 1);
                }
                return Err(e);
            },
            Ok(s) => {
                let ghost before = styles@;
                styles.push(s);
                proof {
                    assert(styles_view(styles@) =~= styles_view(before).push(s@));
                }
            },
        }
        i = i + 1;
    }
    proof {
        assert(sections_view(sections@).take(i as int) =~= sections_view(sections@));
    }
    Ok(styles)
}

/// Once a prefix of a table's fields fails, the whole table fails the same way.
proof fn lemma_fields_error_stays(name: Seq<char>, fields: Seq<(Seq<char>, FieldView)>, n: int)
    requires
        0 <= n <= fields.len(),
        read_fields(name, fields.take(n)) is Err,
    ensures
        read_fields(name, fields) == read_fields(name, fields.take(n)),
    decreases fields.len() - n,
{
    if n < fields.len() {
        let longer = fields.take(n + 1);
        assert(longer.drop_last() =~= fields.take(n));
        lemma_fields_error_stays(name, fields, n + 1);
    } else {
        assert(fields.take(n) =~= fields);
    }
}

/// Once a prefix of the document fails, the whole document fails the same way.
proof fn lemma_document_error_stays(sections: Seq<(Seq<char>, EntryView)>, n: int)
    requires
        0 <= n <= sections.len(),
        read_document(sections.take(n)) is Err,
    ensures
        read_document(sections) == read_document(sections.take(n)),
    decreases sections.len() - n,
{
    if n < sections.len() {
        let longer = sections.take(n + 1);
        assert(longer.drop_last() =~= sections.take(n));
        lemma_document_error_stays(sections, n + 1);
    } else {
        assert(sections.take(n) =~= sections);
    }
}

/// Reads the styles of a settings document given as text.
pub fn parse_config(text: &str) -> (r: Result<Vec<Style>, ConfigError>)
    ensures
        styles_result_view(r) == config_of(text@),
        r matches Ok(styles) ==> forall|i: int|
            0 <= i < styles@.len() ==> (#[trigger] styles@[i]).id >= 0,
{
    match parse_toml(text) {
        Err(_) => Err(ConfigError::Syntax),
        Ok(sections) => {
            let r = read_styles(&sections);
            proof {
                lemma_loaded_styles_valid(sections_view(sections@));
                if r is Ok {
                    let styles = r->Ok_0;
                    let sv = styles_view(styles@);
                    assert(read_document(sections_view(sections@)) == Ok::<
                        Seq<StyleView>,
                        ConfigFault,
                    >(sv));
                    assert(styles_valid(sv));
                    assert forall|i: int| 0 <= i < styles@.len() implies (
                    #[trigger] styles@[i]).id >= 0 by {
                        assert(sv[i] == styles@[i]@);
                    }
                }
            }
            r
        },
    }
}

/// Reads the styles of a settings document given as the file's bytes.
pub fn load_config(bytes: &[u8]) -> (r: Result<Vec<Style>, ConfigError>)
    ensures
        styles_result_view(r) == config_of_bytes(bytes@),
        r matches Ok(styles) ==> forall|i: int|
            0 <= i < styles@.len() ==> (#[trigger] styles@[i]).id >= 0,
{
    match utf8_text(bytes) {
        None => Err(ConfigError::NotUtf8),
        Some(text) => parse_config(text),
    }
}

/// The line that stores one setting: the key, the value in double quotes,
/// then the comment as it stands.
pub open spec fn setting_line(s: SettingView) -> Seq<char> {
    s.key + " = \""@ + s.val + "\""@ + s.comment + "\n"@
}

/// The lines of the settings, in order.
pub open spec fn settings_text(settings: Seq<SettingView>) -> Seq<char>
    decreases settings.len(),
{
    if settings.len() == 0 {
        Seq::empty()
    } else {
        settings_text(settings.drop_last()) + setting_line(settings.last())
    }
}

/// The text of one style: its table header, its id, then its settings in order.
pub open spec fn style_text(s: StyleView) -> Seq<char> {
    "["@ + s.name + "]\nid = "@ + decimal_text(s.id as int) + "\n"@ + settings_text(s.settings)
}

/// The document that stores the given styles, in order.
pub open spec fn document_text(styles: Seq<StyleView>) -> Seq<char>
    decreases styles.len(),
{
    if styles.len() == 0 {
        Seq::empty()
    } else {
        document_text(styles.drop_last()) + style_text(styles.last())
    }
}

/// Appends the text of one style.
fn push_style(out: &mut String, style: &Style)
    ensures
        final(out)@ == old(out)@ + style_text(style@),
{
    let ghost start = out@;
    out.append("[");
    out.append(style.name.as_str());
    out.append("]\nid = ");
    push_decimal(out, style.id);
    out.append("\n");
    let ghost head = out@;
    let settings = &style.settings;
    let mut i: usize = 0;
    proof {
        assert(settings_view(settings@).take(0) =~= Seq::empty());
        assert(head == head + settings_text(settings_view(settings@).take(0)));
    }
    while i < settings.len()
        invariant
            0 <= i <= settings@.len(),
            out@ == head + settings_text(settings_view(settings@).take(i as int)),
        decreases settings@.len() - i,
    {
        let s = &settings[i];
        out.append(s.key.as_str());
        out.append(" = \"");
        out.append(s.val.as_str());
        out.append("\"");
        out.append(s.comment.as_str());
        out.append("\n");
        proof {
            let sv = settings_view(settings@);
            assert(sv.take(i + 1).drop_last() =~= sv.take(i as int));
            assert(sv.take(i + 1).last() == s@);
        }
        i = i + 1;
    }
    proof {
        assert(settings_view(settings@).take(i as int) =~= settings_view(settings@));
        assert(out@ =~= start + style_text(style@));
    }
}

/// The document text that stores `styles`, in order.
pub fn save_style_settings(styles: &[Style]) -> (r: String)
    ensures
        r@ == document_text(styles_view(styles@)),
{
    let mut out = String::new();
    let mut i: usize = 0;
    proof {
        assert(styles_view(styles@).take(0) =~= Seq::empty());
    }
    while i < styles.len()
        invariant
            0 <= i <= styles@.len(),
            out@ == document_text(styles_view(styles@).take(i as int)),
        decreases styles@.len() - i,
    {
        push_style(&mut out, &styles[i]);
        proof {
            let sv = styles_view(styles@);
            assert(sv.take(i + 1).drop_last() =~= sv.take(i as int));
            assert(sv.take(i + 1).last() == styles@[i as int]@);
        }
        i = i + 1;
    }
    proof {
        assert(styles_view(styles@).take(i as int) =~= styles_view(styles@));
    }
    out
}

/// The message that reports a document error.
pub open spec fn config_message(e: ConfigFault) -> Seq<char> {
    match e {
        ConfigFault::NotUtf8 => "Config file is not valid UTF-8."@,
        ConfigFault::Syntax => "Unable to parse config file."@,
        ConfigFault::NotTable(n) => "Unable to parse '"@ + n + "' as table."@,
        ConfigFault::IdNotInteger(n) => "ID in style '"@ + n + "' is not an integer."@,
        ConfigFault::NegativeId(n) => "ID in style '"@ + n + "' is negative."@,
        ConfigFault::SettingNotString(k, n) => "Setting '"@ + k + "' in style '"@ + n
            + "' is not a string."@,
        ConfigFault::MissingId(n) => "Missing 'id' field in style "@ + n + "."@,
    }
}

impl ConfigError {
    /// A message that names the offending style and key.
    pub fn description(&self) -> (r: String)
        ensures
            r@ == config_message(self@),
    {
        match self {
            ConfigError::NotUtf8 => String::from_str("Config file is not valid UTF-8."),
            ConfigError::Syntax => String::from_str("Unable to parse config file."),
            ConfigError::NotTable(n) => {
                let mut r = String::from_str("Unable to parse '");
                r.append(n.as_str());
                r.append("' as table.");
                r
            },
            ConfigError::IdNotInteger(n) => {
                let mut r = String::from_str("ID in style '");
                r.append(n.as_str());
                r.append("' is not an integer.");
                r
            },
            ConfigError::NegativeId(n) => {
                let mut r = String::from_str("ID in style '");
                r.append(n.as_str());
                r.append("' is negative.");
                r
            },
            ConfigError::SettingNotString(k, n) => {
                let mut r = String::from_str("Setting '");
                r.append(k.as_str());
                r.append("' in style '");
                r.append(n.as_str());
                r.append("' is not a string.");
                r
            },
            ConfigError::MissingId(n) => {
                let mut r = String::from_str("Missing 'id' field in style ");
                r.append(n.as_str());
                r.append(".");
                r
            },
        }
    }
}

/// A document whose entries before `k` read as styles fails with the error
/// of entry `k` where that entry does not read.
proof fn lemma_document_fails_at(doc: Seq<(Seq<char>, EntryView)>, k: int)
    requires
        0 <= k < doc.len(),
        forall|j: int| 0 <= j < k ==> (#[trigger] read_section(doc[j].0, doc[j].1)) is Ok,
        read_section(doc[k].0, doc[k].1) is Err,
    ensures
        read_document(doc) == Err::<Seq<StyleView>, ConfigFault>(
            read_section(doc[k].0, doc[k].1)->Err_0,
        ),
{
    lemma_document_prefix_reads(doc, k);
    assert(doc.take(k + 1).drop_last() =~= doc.take(k));
    assert(doc.take(k + 1).last() == doc[k]);
    lemma_document_error_stays(doc, k + 1);
}

proof fn lemma_document_prefix_reads(doc: Seq<(Seq<char>, EntryView)>, k: int)
    requires
        0 <= k <= doc.len(),
        forall|j: int| 0 <= j < k ==> (#[trigger] read_section(doc[j].0, doc[j].1)) is Ok,
    ensures
        read_document(doc.take(k)) is Ok,
    decreases k,
{
    if k > 0 {
        lemma_document_prefix_reads(doc, k - 1);
        assert(doc.take(k).drop_last() =~= doc.take(k - 1));
        assert(doc.take(k).last() == doc[k - 1]);
    }
}

proof fn lemma_fields_without_id(name: Seq<char>, fields: Seq<(Seq<char>, FieldView)>)
    requires
        forall|i: int|
            0 <= i < fields.len() ==> (#[trigger] fields[i]).0 != "id"@ && fields[i].1 is Text,
    ensures
        read_fields(name, fields) matches Ok((id, _)) && id is None,
    decreases fields.len(),
{
    if fields.len() > 0 {
        lemma_fields_without_id(name, fields.drop_last());
        assert(fields.last() == fields[fields.len() - 1]);
    }
}

/// A table without an `id` key, whose other values are all strings, fails
/// with a missing-id error naming that table, once the tables before it
/// have been read.
pub proof fn lemma_section_without_id_fails(
    doc: Seq<(Seq<char>, EntryView)>,
    k: int,
    fields: Seq<(Seq<char>, FieldView)>,
)
    requires
        0 <= k < doc.len(),
        forall|j: int| 0 <= j < k ==> (#[trigger] read_section(doc[j].0, doc[j].1)) is Ok,
        doc[k].1 == EntryView::Table(fields),
        forall|i: int|
            0 <= i < fields.len() ==> (#[trigger] fields[i]).0 != "id"@ && fields[i].1 is Text,
    ensures
        read_document(doc) == Err::<Seq<StyleView>, ConfigFault>(ConfigFault::MissingId(doc[k].0)),
{
    lemma_fields_without_id(doc[k].0, fields);
    lemma_document_fails_at(doc, k);
}

/// In a table whose fields before `i` read fine, a field `i` that is not
/// `id` and not a string fails with an error naming its key and the table,
/// once the tables before it have been read.
pub proof fn lemma_setting_not_string_fails(
    doc: Seq<(Seq<char>, EntryView)>,
    k: int,
    fields: Seq<(Seq<char>, FieldView)>,
    i: int,
)
    requires
        0 <= k < doc.len(),
        forall|j: int| 0 <= j < k ==> (#[trigger] read_section(doc[j].0, doc[j].1)) is Ok,
        doc[k].1 == EntryView::Table(fields),
        0 <= i < fields.len(),
        read_fields(doc[k].0, fields.take(i)) is Ok,
        fields[i].0 != "id"@,
        !(fields[i].1 is Text),
    ensures
        read_document(doc) == Err::<Seq<StyleView>, ConfigFault>(
            ConfigFault::SettingNotString(fields[i].0, doc[k].0),
        ),
{
    assert(fields.take(i + 1).drop_last() =~= fields.take(i));
    assert(fields.take(i + 1).last() == fields[i]);
    lemma_fields_error_stays(doc[k].0, fields, i + 1);
    lemma_document_fails_at(doc, k);
}

/// In a table whose fields before `i` read fine, an `id` field `i` that is
/// not an integer fails with an error naming the table, once the tables
/// before it have been read.
pub proof fn lemma_id_not_integer_fails(
    doc: Seq<(Seq<char>, EntryView)>,
    k: int,
    fields: Seq<(Seq<char>, FieldView)>,
    i: int,
)
    requires
        0 <= k < doc.len(),
        forall|j: int| 0 <= j < k ==> (#[trigger] read_section(doc[j].0, doc[j].1)) is Ok,
        doc[k].1 == EntryView::Table(fields),
        0 <= i < fields.len(),
        read_fields(doc[k].0, fields.take(i)) is Ok,
        fields[i].0 == "id"@,
        !(fields[i].1 is Integer),
    ensures
        read_document(doc) == Err::<Seq<StyleView>, ConfigFault>(
            ConfigFault::IdNotInteger(doc[k].0),
        ),
{
    assert(fields.take(i + 1).drop_last() =~= fields.take(i));
    assert(fields.take(i + 1).last() == fields[i]);
    lemma_fields_error_stays(doc[k].0, fields, i + 1);
    lemma_document_fails_at(doc, k);
}

/// In a table whose fields before `i` read fine, an `id` field `i` that is
/// a negative integer fails with an error naming the table, once the tables
/// before it have been read.
pub proof fn lemma_negative_id_fails(
    doc: Seq<(Seq<char>, EntryView)>,
    k: int,
    fields: Seq<(Seq<char>, FieldView)>,
    i: int,
    n: i64,
)
    requires
        0 <= k < doc.len(),
        forall|j: int| 0 <= j < k ==> (#[trigger] read_section(doc[j].0, doc[j].1)) is Ok,
        doc[k].1 == EntryView::Table(fields),
        0 <= i < fields.len(),
        read_fields(doc[k].0, fields.take(i)) is Ok,
        fields[i] == ("id"@, FieldView::Integer(n)),
        n < 0,
    ensures
        read_document(doc) == Err::<Seq<StyleView>, ConfigFault>(ConfigFault::NegativeId(doc[k].0)),
{
    assert(fields.take(i + 1).drop_last() =~= fields.take(i));
    assert(fields.take(i + 1).last() == fields[i]);
    lemma_fields_error_stays(doc[k].0, fields, i + 1);
    lemma_document_fails_at(doc, k);
}

proof fn lemma_fields_valid(name: Seq<char>, fields: Seq<(Seq<char>, FieldView)>)
    ensures
        read_fields(name, fields) matches Ok((id, settings)) ==> (id matches Some(n) ==> n >= 0)
            && forall|j: int| 0 <= j < settings.len() ==> (#[trigger] settings[j]).key != "id"@,
    decreases fields.len(),
{
    if fields.len() > 0 {
        lemma_fields_valid(name, fields.drop_last());
        if let Ok((id, settings)) = read_fields(name, fields.drop_last()) {
            if let Ok((id2, settings2)) = read_fields(name, fields) {
                assert forall|j: int| 0 <= j < settings2.len() implies (
                #[trigger] settings2[j]).key != "id"@ by {
                    if j < settings.len() {
                        assert(settings2[j] == settings[j]);
                    }
                }
            }
        }
    }
}

/// Styles whose ids are no less than zero and none of whose settings has
/// the key `id`.
pub open spec fn styles_valid(styles: Seq<StyleView>) -> bool {
    forall|i: int|
        0 <= i < styles.len() ==> (#[trigger] styles[i]).id >= 0 && forall|j: int|
            0 <= j < styles[i].settings.len() ==> (#[trigger] styles[i].settings[j]).key != "id"@
}

/// Every style that a document reads as has an id no less than zero, and
/// none of its settings has the key `id`.
pub proof fn lemma_loaded_styles_valid(sections: Seq<(Seq<char>, EntryView)>)
    ensures
        read_document(sections) is Ok ==> styles_valid(read_document(sections)->Ok_0),
    decreases sections.len(),
{
    if sections.len() > 0 {
        lemma_loaded_styles_valid(sections.drop_last());
        let last = sections.last();
        if let EntryView::Table(fields) = last.1 {
            lemma_fields_valid(last.0, fields);
        }
        if let Ok(styles) = read_document(sections) {
            let before = read_document(sections.drop_last())->Ok_0;
            assert forall|i: int| 0 <= i < styles.len() implies (#[trigger] styles[i]).id >= 0
                && forall|j: int|
                0 <= j < styles[i].settings.len() ==> (#[trigger] styles[i].settings[j]).key
                    != "id"@ by {
                if i < before.len() {
                    assert(styles[i] == before[i]);
                }
            }
        }
    }
}

/// The fields that the written text gives a setting list: each key with its
/// value as a string.
pub open spec fn written_fields(settings: Seq<SettingView>) -> Seq<(Seq<char>, FieldView)> {
    settings.map_values(|s: SettingView| (s.key, FieldView::Text(s.val)))
}

/// The tables that the written document lays out: one per style, named
/// after it, holding `id` first and then the settings in order.
pub open spec fn written_sections(styles: Seq<StyleView>) -> Seq<(Seq<char>, EntryView)> {
    styles.map_values(
        |s: StyleView|
            (s.name, EntryView::Table(seq![("id"@, FieldView::Integer(s.id))] + written_fields(s.settings))),
    )
}

/// A setting with its comment left out.
pub open spec fn without_comment(s: SettingView) -> SettingView {
    SettingView { comment: Seq::empty(), ..s }
}

/// A style as the document stores it: its settings without their comments.
pub open spec fn stored_form(s: StyleView) -> StyleView {
    StyleView { settings: s.settings.map_values(|x: SettingView| without_comment(x)), ..s }
}

proof fn lemma_written_fields_read_back(name: Seq<char>, id: i64, settings: Seq<SettingView>)
    requires
        id >= 0,
        forall|j: int| 0 <= j < settings.len() ==> (#[trigger] settings[j]).key != "id"@,
    ensures
        read_fields(name, seq![("id"@, FieldView::Integer(id))] + written_fields(settings))
            == Ok::<(Option<i64>, Seq<SettingView>), ConfigFault>(
            (Some(id), settings.map_values(|x: SettingView| without_comment(x))),
        ),
    decreases settings.len(),
{
    let fields = seq![("id"@, FieldView::Integer(id))] + written_fields(settings);
    if settings.len() == 0 {
        assert(fields.drop_last() =~= Seq::empty());
        assert(fields.last() == ("id"@, FieldView::Integer(id)));
        assert(read_fields(name, fields.drop_last()) == Ok::<
            (Option<i64>, Seq<SettingView>),
            ConfigFault,
        >((None, Seq::empty())));
        assert(settings.map_values(|x: SettingView| without_comment(x)) =~= Seq::empty());
    } else {
        let shorter = settings.drop_last();
        lemma_written_fields_read_back(name, id, shorter);
        assert(fields.drop_last() =~= seq![("id"@, FieldView::Integer(id))] + written_fields(
            shorter,
        ));
        assert(fields.last() == (settings.last().key, FieldView::Text(settings.last().val)));
        assert(settings[settings.len() - 1].key != "id"@);
        assert(settings.map_values(|x: SettingView| without_comment(x)) =~= shorter.map_values(
            |x: SettingView| without_comment(x),
        ).push(SettingView { key: settings.last().key, val: settings.last().val, comment: Seq::empty() }));
    }
}

/// The tables that the written document lays out read back as the same
/// styles, in order, with the same names, ids, keys and values; only the
/// comments are not read. Ids must be no less than zero and setting keys
/// must differ from `id`.
pub proof fn lemma_written_sections_read_back(styles: Seq<StyleView>)
    requires
        forall|i: int| 0 <= i < styles.len() ==> (#[trigger] styles[i]).id >= 0,
        forall|i: int, j: int|
            0 <= i < styles.len() && 0 <= j < styles[i].settings.len() ==> (
            #[trigger] styles[i].settings[j]).key != "id"@,
    ensures
        read_document(written_sections(styles)) == Ok::<Seq<StyleView>, ConfigFault>(
            styles.map_values(|s: StyleView| stored_form(s)),
        ),
    decreases styles.len(),
{
    let doc = written_sections(styles);
    if styles.len() == 0 {
        assert(styles.map_values(|s: StyleView| stored_form(s)) =~= Seq::empty());
    } else {
        let shorter = styles.drop_last();
        assert forall|i: int, j: int|
            0 <= i < shorter.len() && 0 <= j < shorter[i].settings.len() implies (
            #[trigger] shorter[i].settings[j]).key != "id"@ by {
            assert(shorter[i] == styles[i]);
        }
        assert forall|i: int| 0 <= i < shorter.len() implies (#[trigger] shorter[i]).id >= 0 by {
            assert(shorter[i] == styles[i]);
        }
        assert(styles[styles.len() - 1] == styles.last());
        lemma_written_sections_read_back(shorter);
        assert(doc.drop_last() =~= written_sections(shorter));
        let last = styles.last();
        assert forall|j: int| 0 <= j < last.settings.len() implies (
        #[trigger] last.settings[j]).key != "id"@ by {
            assert(styles[styles.len() - 1].settings[j] == last.settings[j]);
        }
        lemma_written_fields_read_back(last.name, last.id, last.settings);
        assert(styles.map_values(|s: StyleView| stored_form(s)) =~= shorter.map_values(
            |s: StyleView| stored_form(s),
        ).push(stored_form(last)));
    }
}

} // verus!
