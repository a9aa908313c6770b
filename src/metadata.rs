//! The site's metadata for a style, and how a style's settings are refreshed
//! from it.
use vstd::prelude::*;
use crate::decimal::{decimal_text, push_decimal};
use crate::model::{find_settings_val, lookup, settings_view, Setting, SettingView, Style, StyleView};

verus! {

/// One option of a remote setting: its install key, its literal value and
/// whether it is the default.
pub struct StyleOption {
    pub install_key: Option<String>,
    pub value: Option<String>,
    pub is_default: bool,
}

/// What an option holds, as plain values.
pub struct OptionView {
    pub install_key: Option<Seq<char>>,
    pub value: Option<Seq<char>>,
    pub is_default: bool,
}

/// One remote setting: its install key, its type and its options.
pub struct SettingInfo {
    pub install_key: Option<String>,
    pub setting_type: Option<String>,
    pub options: Vec<StyleOption>,
}

/// What a remote setting holds, as plain values.
pub struct SettingInfoView {
    pub install_key: Option<Seq<char>>,
    pub setting_type: Option<Seq<char>>,
    pub options: Seq<OptionView>,
}

/// The metadata of a style: whether the site reported it unknown or failed,
/// and its settings in the order given.
pub struct StyleInfo {
    pub not_found: bool,
    pub error: bool,
    pub settings: Vec<SettingInfo>,
}

/// What a style's metadata holds, as plain values.
pub struct StyleInfoView {
    pub not_found: bool,
    pub error: bool,
    pub settings: Seq<SettingInfoView>,
}

/// The characters of a text, where there is one.
pub open spec fn text_view(t: Option<String>) -> Option<Seq<char>> {
    match t {
        Some(s) => Some(s@),
        None => None,
    }
}

impl View for StyleOption {
    type V = OptionView;

    open spec fn view(&self) -> OptionView {
        OptionView {
            install_key: text_view(self.install_key),
            value: text_view(self.value),
            is_default: self.is_default,
        }
    }
}

/// The views of a sequence of options.
pub open spec fn options_view(o: Seq<StyleOption>) -> Seq<OptionView> {
    o.map_values(|x: StyleOption| x@)
}

impl View for SettingInfo {
    type V = SettingInfoView;

    open spec fn view(&self) -> SettingInfoView {
        SettingInfoView {
            install_key: text_view(self.install_key),
            setting_type: text_view(self.setting_type),
            options: options_view(self.options@),
        }
    }
}

/// The views of a sequence of remote settings.
pub open spec fn infos_view(s: Seq<SettingInfo>) -> Seq<SettingInfoView> {
    s.map_values(|x: SettingInfo| x@)
}

impl View for StyleInfo {
    type V = StyleInfoView;

    open spec fn view(&self) -> StyleInfoView {
        StyleInfoView {
            not_found: self.not_found,
            error: self.error,
            settings: infos_view(self.settings@),
        }
    }
}

/// Why a style's settings could not be refreshed.
#[derive(Debug, Clone, Copy, PartialEq, Eq, Structural)]
pub enum FetchError {
    /// The response is not JSON.
    Decode,
    /// The site does not know the style with this id.
    NotFound(i64),
    /// A remote setting has no install key.
    MissingInstallKey,
    /// An option of a remote setting has no install key.
    MissingOptionKey,
}

/// The metadata that a JSON response text holds, or `None` where the text
/// is not JSON: whether `not_found` and `error` are set (not null), and, for
/// each item of `style_settings`, its `install_key` and `setting_type` where
/// they are strings and, for each item of its `style_setting_options`, its
/// `install_key` and `value` where they are strings and whether `default`
/// is `true`.
pub uninterp spec fn json_style_info(text: Seq<char>) -> Option<StyleInfoView>;

#[verifier::external_type_specification]
#[verifier::external_body]
pub struct ExJsonError(json::Error);

/// Relies on `json::parse`, and on `JsonValue`'s indexing by key (null where
/// the key or the object is missing), `members` (the items of an array, in
/// order; none for any other value), `as_str`, `is_null` and `== true`.
#[verifier::external_body]
fn parse_style_info(text: &str) -> (r: Result<StyleInfo, json::Error>)
    ensures
        r is Ok <==> json_style_info(text@) is Some,
        r matches Ok(info) ==> json_style_info(text@) == Some(info@),
{
    let v = json::parse(text)?;
    let mut settings = Vec::new();
    for s in v["style_settings"].members() {
        let mut options = Vec::new();
        for o in s["style_setting_options"].members() {
            let install_key = o["install_key"].as_str().map(String::from);
            let value = o["value"].as_str().map(String::from);
            options.push(StyleOption { install_key, value, is_default: o["default"] == true });
        }
        let install_key = s["install_key"].as_str().map(String::from);
        let setting_type = s["setting_type"].as_str().map(String::from);
        settings.push(SettingInfo { install_key, setting_type, options });
    }
    Ok(StyleInfo { not_found: !v["not_found"].is_null(), error: !v["error"].is_null(), settings })
}

/// A text where there is one, else the empty text.
pub open spec fn text_or_empty(t: Option<Seq<char>>) -> Seq<char> {
    match t {
        Some(s) => s,
        None => Seq::empty(),
    }
}

/// A setting key as stored locally: the remote install key after `ik-`.
pub open spec fn prefixed(install_key: Seq<char>) -> Seq<char> {
    "ik-"@ + install_key
}

/// Setting types whose options are listed by their literal values.
pub open spec fn lists_values(setting_type: Seq<char>) -> bool {
    setting_type == "text"@ || setting_type == "color"@
}

/// How one option is listed in a setting's comment.
pub open spec fn option_note(setting_type: Seq<char>, o: OptionView) -> Seq<char> {
    if lists_values(setting_type) {
        "'"@ + text_or_empty(o.value) + "'"@
    } else {
        prefixed(text_or_empty(o.install_key))
    }
}

/// Each option's note after a space, in order.
pub open spec fn options_note(setting_type: Seq<char>, options: Seq<OptionView>) -> Seq<char>
    decreases options.len(),
{
    if options.len() == 0 {
        Seq::empty()
    } else {
        options_note(setting_type, options.drop_last()) + " "@ + option_note(
            setting_type,
            options.last(),
        )
    }
}

/// The comment of a refreshed setting: its type, then each option.
pub open spec fn setting_comment(info: SettingInfoView) -> Seq<char> {
    " # "@ + text_or_empty(info.setting_type) + ":"@ + options_note(
        text_or_empty(info.setting_type),
        info.options,
    )
}

/// The key of the last option flagged default, or empty where none is.
pub open spec fn default_value(options: Seq<OptionView>) -> Seq<char>
    decreases options.len(),
{
    if options.len() == 0 {
        Seq::empty()
    } else if options.last().is_default {
        prefixed(text_or_empty(options.last().install_key))
    } else {
        default_value(options.drop_last())
    }
}

/// Whether every option has an install key.
pub open spec fn options_named(options: Seq<OptionView>) -> bool {
    forall|i: int| 0 <= i < options.len() ==> (#[trigger] options[i]).install_key is Some
}

/// A remote setting as stored locally: a value stored before under the same
/// key wins over the remote default.
pub open spec fn refreshed_setting(info: SettingInfoView, old: Seq<SettingView>) -> SettingView {
    let key = prefixed(text_or_empty(info.install_key));
    SettingView {
        key,
        val: match lookup(old, key) {
            Some(v) => v,
            None => default_value(info.options),
        },
        comment: setting_comment(info),
    }
}

/// One local setting per remote setting, in the remote order; the first
/// remote setting or option without an install key decides the error.
pub open spec fn refresh_settings(infos: Seq<SettingInfoView>, old: Seq<SettingView>) -> Result<
    Seq<SettingView>,
    FetchError,
>
    decreases infos.len(),
{
    if infos.len() == 0 {
        Ok(Seq::empty())
    } else {
        match refresh_settings(infos.drop_last(), old) {
            Err(e) => Err(e),
            Ok(settings) => {
                let info = infos.last();
                if info.install_key is None {
                    Err(FetchError::MissingInstallKey)
                } else if !options_named(info.options) {
                    Err(FetchError::MissingOptionKey)
                } else {
                    Ok(settings.push(refreshed_setting(info, old)))
                }
            },
        }
    }
}

/// The settings of style `id` refreshed from its metadata.
pub open spec fn settings_from(id: i64, info: StyleInfoView, old: Seq<SettingView>) -> Result<
    Seq<SettingView>,
    FetchError,
> {
    if info.not_found || info.error {
        Err(FetchError::NotFound(id))
    } else {
        refresh_settings(info.settings, old)
    }
}

/// The settings of style `id` refreshed from the metadata response `text`.
pub open spec fn fetched_settings(id: i64, text: Seq<char>, old: Seq<SettingView>) -> Result<
    Seq<SettingView>,
    FetchError,
> {
    match json_style_info(text) {
        None => Err(FetchError::Decode),
        Some(info) => settings_from(id, info, old),
    }
}

/// The view of a refresh result.
pub open spec fn settings_result_view(r: Result<Vec<Setting>, FetchError>) -> Result<
    Seq<SettingView>,
    FetchError,
> {
    match r {
        Ok(s) => Ok(settings_view(s@)),
        Err(e) => Err(e),
    }
}

/// An owned copy of a text where there is one, else an empty text.
fn text_or_new(t: &Option<String>) -> (r: String)
    ensures
        r@ == text_or_empty(text_view(*t)),
{
    match t {
        Some(s) => s.clone(),
        None => String::new(),
    }
}

/// Refreshes one remote setting against the settings stored before.
fn refresh_setting(info: &SettingInfo, old: &[Setting]) -> (r: Result<Setting, FetchError>)
    ensures
        info@.install_key is None ==> r == Err::<Setting, FetchError>(
            FetchError::MissingInstallKey,
        ),
        info@.install_key is Some && !options_named(info@.options) ==> r == Err::<
            Setting,
            FetchError,
        >(FetchError::MissingOptionKey),
        info@.install_key is Some && options_named(info@.options) ==> (r matches Ok(s) && s@
            == refreshed_setting(info@, settings_view(old@))),
{
    let install_key = match &info.install_key {
        Some(k) => k,
        None => {
            return Err(FetchError::MissingInstallKey);
        },
    };
    proof {
        assert(info@.install_key == Some(install_key@));
    }
    let mut key = String::from_str("ik-");
    key.append(install_key.as_str());
    let setting_type = text_or_new(&info.setting_type);
    let listed = setting_type == String::from_str("text") || setting_type == String::from_str(
        "color",
    );
    let mut comment = String::from_str(" # ");
    comment.append(setting_type.as_str());
    comment.append(":");
    let ghost head = comment@;
    let mut default = String::new();
    let options = &info.options;
    let ghost ov = options_view(options@);
    let mut j: usize = 0;
    proof {
        assert(ov.take(0) =~= Seq::empty());
        assert(head =~= head + options_note(setting_type@, ov.take(0)));
    }
    while j < options.len()
        invariant
            0 <= j <= options@.len(),
            ov == options_view(options@),
            ov == info@.options,
            info@.install_key is Some,
            listed == lists_values(setting_type@),
            setting_type@ == text_or_empty(info@.setting_type),
            comment@ == head + options_note(setting_type@, ov.take(j as int)),
            default@ == default_value(ov.take(j as int)),
            options_named(ov.take(j as int)),
        decreases options@.len() - j,
    {
        let o = &options[j];
        proof {
            assert(ov.take(j + 1).drop_last() =~= ov.take(j as int));
            assert(ov.take(j + 1).last() == o@);
        }
        let option_key = match &o.install_key {
            Some(k) => {
                let mut p = String::from_str("ik-");
                p.append(k.as_str());
                p
            },
            None => {
                proof {
                    assert(ov[j as int].install_key is None);
                    assert(!options_named(info@.options));
                }
                return Err(FetchError::MissingOptionKey);
            },
        };
        comment.append(" ");
        if listed {
            comment.append("'");
            let value = text_or_new(&o.value);
            comment.append(value.as_str());
            comment.append("'");
        } else {
            comment.append(option_key.as_str());
        }
        if o.is_default {
            default = option_key;
        }
        proof {
            assert(comment@ =~= head + options_note(setting_type@, ov.take(j + 1)));
            assert forall|i: int| 0 <= i < ov.take(j + 1).len() implies (#[trigger] ov.take(
                j + 1,
            )[i]).install_key is Some by {
                if i < j {
                    assert(ov.take(j + 1)[i] == ov.take(j as int)[i]);
                }
            }
        }
        j = j + 1;
    }
    proof {
        assert(ov.take(j as int) =~= ov);
    }
    let val = match find_settings_val(old, key.as_str()) {
        Some(v) => v,
        None => default,
    };
    let r = Setting::new(key, val, comment);
    proof {
        assert(r@.comment =~= setting_comment(info@));
    }
    Ok(r)
}

/// The settings of style `id` refreshed from its metadata `info`: one per
/// remote setting, in the remote order, keeping the values of `old`.
pub fn settings_from_info(id: i64, info: &StyleInfo, old: &[Setting]) -> (r: Result<
    Vec<Setting>,
    FetchError,
>)
    ensures
        settings_result_view(r) == settings_from(id, info@, settings_view(old@)),
{
    if info.not_found || info.error {
        return Err(FetchError::NotFound(id));
    }
    let infos = &info.settings;
    let ghost iv = infos_view(infos@);
    let ghost oldv = settings_view(old@);
    let mut out: Vec<Setting> = Vec::new();
    let mut i: usize = 0;
    proof {
        assert(iv.take(0) =~= Seq::empty());
        assert(settings_view(out@) =~= Seq::empty());
    }
    while i < infos.len()
        invariant
            0 <= i <= infos@.len(),
            iv == infos_view(infos@),
            iv == info@.settings,
            !info.not_found && !info.error,
            oldv == settings_view(old@),
            refresh_settings(iv.take(i as int), oldv) == Ok::<Seq<SettingView>, FetchError>(
                settings_view(out@),
            ),
        decreases infos@.len() - i,
    {
        proof {
            assert(iv.take(i + 1).drop_last() =~= iv.take(i as int));
            assert(iv.take(i + 1).last() == infos@[i as int]@);
        }
        match refresh_setting(&infos[i], old) {
            Err(e) => {
                proof {
                    assert(refresh_settings(iv.take(i + 1), oldv) == Err::<
                        Seq<SettingView>,
                        FetchError,
                    >(e));
                    lemma_refresh_error_stays(iv, oldv, i + 1);
                }
                return Err(e);
            },
            Ok(s) => {
                let ghost before = out@;
                out.push(s);
                proof {
                    assert(settings_view(out@) =~= settings_view(before).push(s@));
                }
            },
        }
        i = i + 1;
    }
    proof {
        assert(iv.take(i as int) =~= iv);
    }
    Ok(out)
}

/// Once a prefix of the remote settings fails, all of them fail the same way.
proof fn lemma_refresh_error_stays(infos: Seq<SettingInfoView>, old: Seq<SettingView>, n: int)
    requires
        0 <= n <= infos.len(),
        refresh_settings(infos.take(n), old) is Err,
    ensures
        refresh_settings(infos, old) == refresh_settings(infos.take(n), old),
    decreases infos.len() - n,
{
    if n < infos.len() {
        assert(infos.take(n + 1).drop_last() =~= infos.take(n));
        lemma_refresh_error_stays(infos, old, n + 1);
    } else {
        assert(infos.take(n) =~= infos);
    }
}

/// The settings of style `id` refreshed from the site's metadata response
/// `response`, keeping the values of `old`.
pub fn get_style_settings(id: i64, response: &str, old: &[Setting]) -> (r: Result<
    Vec<Setting>,
    FetchError,
>)
    ensures
        settings_result_view(r) == fetched_settings(id, response@, settings_view(old@)),
{
    match parse_style_info(response) {
        Err(_) => Err(FetchError::Decode),
        Ok(info) => settings_from_info(id, &info, old),
    }
}

/// Replaces the settings of `style` by those refreshed from the site's
/// metadata response `response`; on an error the style is left as it was.
pub fn update_style_settings(style: &mut Style, response: &str) -> (r: Result<(), FetchError>)
    ensures
        match fetched_settings(old(style).id, response@, old(style)@.settings) {
            Ok(settings) => r is Ok && final(style)@ == StyleView { settings, ..old(style)@ },
            Err(e) => r == Err::<(), FetchError>(e) && final(style)@ == old(style)@,
        },
{
    match get_style_settings(style.id, response, style.settings.as_slice()) {
        Err(e) => Err(e),
        Ok(settings) => {
            style.settings = settings;
            Ok(())
        },
    }
}

/// The message that reports a refresh error.
pub open spec fn fetch_message(e: FetchError) -> Seq<char> {
    match e {
        FetchError::Decode => "Unable to decode the style metadata."@,
        FetchError::NotFound(id) => "Style '"@ + decimal_text(id as int) + "' does not exist."@,
        FetchError::MissingInstallKey => "Unable to parse install key."@,
        FetchError::MissingOptionKey => "Unable to parse default value"@,
    }
}

impl FetchError {
    /// A message that names the offending style where there is one.
    pub fn description(&self) -> (r: String)
        ensures
            r@ == fetch_message(*self),
    {
        match self {
            FetchError::Decode => String::from_str("Unable to decode the style metadata."),
            FetchError::NotFound(id) => {
                let mut r = String::from_str("Style '");
                push_decimal(&mut r, *id);
                r.append("' does not exist.");
                r
            },
            FetchError::MissingInstallKey => String::from_str("Unable to parse install key."),
            FetchError::MissingOptionKey => String::from_str("Unable to parse default value"),
        }
    }
}

/// Metadata in which the style is known and every setting and option has
/// an install key.
pub open spec fn info_complete(info: StyleInfoView) -> bool {
    &&& !info.not_found
    &&& !info.error
    &&& forall|i: int|
        0 <= i < info.settings.len() ==> (#[trigger] info.settings[i]).install_key is Some
            && options_named(info.settings[i].options)
}

proof fn lemma_refresh_each(infos: Seq<SettingInfoView>, old: Seq<SettingView>)
    requires
        forall|i: int|
            0 <= i < infos.len() ==> (#[trigger] infos[i]).install_key is Some && options_named(
                infos[i].options,
            ),
    ensures
        refresh_settings(infos, old) == Ok::<Seq<SettingView>, FetchError>(
            infos.map_values(|s: SettingInfoView| refreshed_setting(s, old)),
        ),
    decreases infos.len(),
{
    if infos.len() > 0 {
        let shorter = infos.drop_last();
        assert forall|i: int| 0 <= i < shorter.len() implies (#[trigger] shorter[i]).install_key is Some
            && options_named(shorter[i].options) by {
            assert(shorter[i] == infos[i]);
        }
        lemma_refresh_each(shorter, old);
        assert(infos[infos.len() - 1] == infos.last());
        assert(infos.map_values(|s: SettingInfoView| refreshed_setting(s, old)) =~= shorter.map_values(
            |s: SettingInfoView| refreshed_setting(s, old),
        ).push(refreshed_setting(infos.last(), old)));
    } else {
        assert(infos.map_values(|s: SettingInfoView| refreshed_setting(s, old)) =~= Seq::empty());
    }
}

/// Refreshing gives exactly one setting per remote setting, in the remote
/// order, keyed `ik-<install key>`: settings stored before under keys that
/// the site no longer has are dropped.
pub proof fn lemma_one_setting_per_remote(id: i64, info: StyleInfoView, old: Seq<SettingView>)
    requires
        info_complete(info),
    ensures
        settings_from(id, info, old) == Ok::<Seq<SettingView>, FetchError>(
            info.settings.map_values(|s: SettingInfoView| refreshed_setting(s, old)),
        ),
{
    lemma_refresh_each(info.settings, old);
}

proof fn lemma_single_default(options: Seq<OptionView>, j: int)
    requires
        0 <= j < options.len(),
        options[j].is_default,
        forall|k: int| j < k < options.len() ==> !(#[trigger] options[k]).is_default,
    ensures
        default_value(options) == prefixed(text_or_empty(options[j].install_key)),
    decreases options.len(),
{
    let n = options.len() - 1;
    assert(options.last() == options[n]);
    if j < n {
        let shorter = options.drop_last();
        assert forall|k: int| j < k < shorter.len() implies !(
        #[trigger] shorter[k]).is_default by {
            assert(shorter[k] == options[k]);
        }
        lemma_single_default(shorter, j);
    }
}

/// Where option `j` is the last option of remote setting `i` flagged
/// default and nothing was stored under the setting's key, the refreshed
/// setting has the key `ik-<install key>` and that option's `ik-` key as its
/// value, whatever the setting's type.
pub proof fn lemma_flagged_default_taken(
    id: i64,
    info: StyleInfoView,
    old: Seq<SettingView>,
    i: int,
    j: int,
)
    requires
        info_complete(info),
        0 <= i < info.settings.len(),
        0 <= j < info.settings[i].options.len(),
        info.settings[i].options[j].is_default,
        forall|k: int|
            j < k < info.settings[i].options.len() ==> !(
            #[trigger] info.settings[i].options[k]).is_default,
        lookup(old, prefixed(info.settings[i].install_key->0)) is None,
    ensures
        settings_from(id, info, old) matches Ok(settings) && settings[i].key == prefixed(
            info.settings[i].install_key->0,
        ) && settings[i].val == prefixed(info.settings[i].options[j].install_key->0),
{
    lemma_one_setting_per_remote(id, info, old);
    assert(options_named(info.settings[i].options));
    assert(info.settings[i].options[j].install_key is Some);
    lemma_single_default(info.settings[i].options, j);
}

/// A value stored before under the key of remote setting `i` (the first
/// such) is kept over the remote default.
pub proof fn lemma_stored_value_kept(
    id: i64,
    info: StyleInfoView,
    old: Seq<SettingView>,
    i: int,
    v: Seq<char>,
)
    requires
        info_complete(info),
        0 <= i < info.settings.len(),
        lookup(old, prefixed(info.settings[i].install_key->0)) == Some(v),
    ensures
        settings_from(id, info, old) matches Ok(settings) && settings[i].key == prefixed(
            info.settings[i].install_key->0,
        ) && settings[i].val == v,
{
    lemma_one_setting_per_remote(id, info, old);
    assert(info.settings[i].install_key is Some);
}

/// Where the site reports the style unknown or failing, refreshing fails
/// with an error whose message holds the style's id.
pub proof fn lemma_unknown_style_fails(id: i64, info: StyleInfoView, old: Seq<SettingView>)
    requires
        info.not_found || info.error,
    ensures
        settings_from(id, info, old) == Err::<Seq<SettingView>, FetchError>(FetchError::NotFound(id)),
        fetch_message(FetchError::NotFound(id)) == "Style '"@ + decimal_text(id as int)
            + "' does not exist."@,
{
}

} // verus!
