//! Styles and their settings.
use vstd::prelude::*;

verus! {

/// A configurable key of a style, with its value and a note on the kind of
/// setting and its options (empty until the site's metadata is read).
#[derive(Debug)]
pub struct Setting {
    pub key: String,
    pub val: String,
    pub comment: String,
}

/// What a setting holds, as plain sequences of characters.
pub struct SettingView {
    pub key: Seq<char>,
    pub val: Seq<char>,
    pub comment: Seq<char>,
}

impl View for Setting {
    type V = SettingView;

    open spec fn view(&self) -> SettingView {
        SettingView { key: self.key@, val: self.val@, comment: self.comment@ }
    }
}

/// A userstyle: its id on the site, its section name in the document and
/// its settings, in document order.
#[derive(Debug)]
pub struct Style {
    pub id: i64,
    pub name: String,
    pub settings: Vec<Setting>,
}

/// What a style holds, as plain values.
pub struct StyleView {
    pub id: i64,
    pub name: Seq<char>,
    pub settings: Seq<SettingView>,
}

/// The views of a sequence of settings.
pub open spec fn settings_view(s: Seq<Setting>) -> Seq<SettingView> {
    s.map_values(|x: Setting| x@)
}

/// The views of a sequence of styles.
pub open spec fn styles_view(s: Seq<Style>) -> Seq<StyleView> {
    s.map_values(|x: Style| x@)
}

impl View for Style {
    type V = StyleView;

    open spec fn view(&self) -> StyleView {
        StyleView { id: self.id, name: self.name@, settings: settings_view(self.settings@) }
    }
}

/// The value stored under `key` in the first setting that has that key.
pub open spec fn lookup(settings: Seq<SettingView>, key: Seq<char>) -> Option<Seq<char>>
    decreases settings.len(),
{
    if settings.len() == 0 {
        None
    } else if settings[0].key == key {
        Some(settings[0].val)
    } else {
        lookup(settings.drop_first(), key)
    }
}

impl Setting {
    pub fn new(key: String, val: String, comment: String) -> (r: Setting)
        ensures
            r.key == key,
            r.val == val,
            r.comment == comment,
    {
        Setting { key, val, comment }
    }
}

impl Style {
    /// A style named `name` with no id yet (`-1`) and no settings.
    pub fn new(name: String) -> (r: Style)
        ensures
            r.id == -1,
            r.name == name,
            r.settings@.len() == 0,
    {
        Style { id: -1, name, settings: Vec::new() }
    }

    /// Whether the style's settings still have to be read from the site:
    /// only a style without any setting is looked up.
    pub fn needs_settings(&self) -> (r: bool)
        ensures
            r == (self.settings@.len() == 0),
    {
        self.settings.len() == 0
    }
}

/// The value of the first setting whose key is `key`.
pub fn find_settings_val(settings: &[Setting], key: &str) -> (r: Option<String>)
    ensures
        r matches Some(v) ==> lookup(settings_view(settings@), key@) == Some(v@),
        r is None ==> lookup(settings_view(settings@), key@) is None,
{
    let wanted = String::from_str(key);
    let mut i: usize = 0;
    proof {
        assert(settings_view(settings@).skip(0) =~= settings_view(settings@));
    }
    while i < settings.len()
        invariant
            0 <= i <= settings@.len(),
            wanted@ == key@,
            lookup(settings_view(settings@), key@) == lookup(
                settings_view(settings@).skip(i as int),
                key@,
            ),
        decreases settings@.len() - i,
    {
        let s = &settings[i];
        proof {
            let rest = settings_view(settings@).skip(i as int);
            assert(rest[0] == s@);
            assert(rest.drop_first() =~= settings_view(settings@).skip(i + 1));
        }
        if s.key == wanted {
            return Some(s.val.clone());
        }
        i = i + 1;
    }
    proof {
        assert(settings_view(settings@).skip(i as int).len() == 0);
    }
    None
}

/// The positions, in order, of the styles among the first `n` whose settings
/// still have to be read from the site.
pub open spec fn pending(styles: Seq<StyleView>, n: int) -> Seq<usize>
    decreases n,
{
    if n <= 0 {
        Seq::empty()
    } else if styles[n - 1].settings.len() == 0 {
        pending(styles, n - 1).push((n - 1) as usize)
    } else {
        pending(styles, n - 1)
    }
}

/// The positions, in document order, of the styles whose settings have to
/// be read from the site: those without any setting.
pub fn styles_needing_settings(styles: &[Style]) -> (r: Vec<usize>)
    ensures
        r@ == pending(styles_view(styles@), styles@.len() as int),
{
    let ghost sv = styles_view(styles@);
    let mut r: Vec<usize> = Vec::new();
    let mut i: usize = 0;
    while i < styles.len()
        invariant
            0 <= i <= styles@.len(),
            sv == styles_view(styles@),
            r@ == pending(sv, i as int),
        decreases styles@.len() - i,
    {
        proof {
            assert(sv[i as int] == styles@[i as int]@);
        }
        if styles[i].needs_settings() {
            r.push(i);
        }
        i = i + 1;
    }
    r
}

/// A style that already has settings is never looked up.
pub proof fn lemma_configured_style_skipped(styles: Seq<StyleView>, n: int, i: int)
    requires
        0 <= i < styles.len(),
        n <= styles.len() <= usize::MAX,
        styles[i].settings.len() > 0,
    ensures
        !pending(styles, n).contains(i as usize),
    decreases n,
{
    if n > 0 {
        lemma_configured_style_skipped(styles, n - 1, i);
        if styles[n - 1].settings.len() == 0 {
            assert(n - 1 != i);
            assert(pending(styles, n) =~= pending(styles, n - 1).push((n - 1) as usize));
            if pending(styles, n).contains(i as usize) {
                let k = choose|k: int|
                    0 <= k < pending(styles, n).len() && #[trigger] pending(styles, n)[k]
                        == i as usize;
                if k < pending(styles, n - 1).len() {
                    assert(pending(styles, n - 1)[k] == i as usize);
                }
            }
        }
    }
}

/// A style without settings is looked up.
pub proof fn lemma_unconfigured_style_pending(styles: Seq<StyleView>, n: int, i: int)
    requires
        0 <= i < n <= styles.len() <= usize::MAX,
        styles[i].settings.len() == 0,
    ensures
        pending(styles, n).contains(i as usize),
    decreases n,
{
    if i < n - 1 {
        lemma_unconfigured_style_pending(styles, n - 1, i);
        let k = choose|k: int|
            0 <= k < pending(styles, n - 1).len() && #[trigger] pending(styles, n - 1)[k]
                == i as usize;
        if styles[n - 1].settings.len() == 0 {
            assert(pending(styles, n)[k] == i as usize);
        }
    } else {
        assert(pending(styles, n).last() == i as usize);
    }
}

} // verus!
