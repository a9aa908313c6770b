//! The requests sent to the site: the metadata address of a style, and the
//! address and form body that render a style's CSS.
use vstd::prelude::*;
use crate::decimal::{decimal_text, push_decimal};
use crate::model::{settings_view, Setting, SettingView, Style};

verus! {

/// One `key=value` pair of the render form.
pub open spec fn form_pair(s: SettingView) -> Seq<char> {
    s.key + "="@ + s.val
}

/// The render form: the settings' pairs in order, joined by `&`.
pub open spec fn form_body(settings: Seq<SettingView>) -> Seq<char>
    decreases settings.len(),
{
    if settings.len() == 0 {
        Seq::empty()
    } else if settings.len() == 1 {
        form_pair(settings[0])
    } else {
        form_body(settings.drop_last()) + "&"@ + form_pair(settings.last())
    }
}

/// The address of the metadata of style `id` under `api_base`.
pub fn metadata_uri(api_base: &str, id: i64) -> (r: String)
    ensures
        r@ == api_base@ + decimal_text(id as int),
{
    let mut r = String::from_str(api_base);
    push_decimal(&mut r, id);
    r
}

/// The address that renders the CSS of `style` under `style_base`.
pub fn get_style_uri(style_base: &str, style: &Style) -> (r: String)
    ensures
        r@ == style_base@ + decimal_text(style.id as int) + ".css?"@,
{
    let mut r = String::from_str(style_base);
    push_decimal(&mut r, style.id);
    r.append(".css?");
    r
}

/// The form body that renders the CSS of `style` with its settings.
pub fn get_style_body(style: &Style) -> (r: String)
    ensures
        r@ == form_body(style@.settings),
{
    let settings = &style.settings;
    let ghost sv = settings_view(settings@);
    let mut r = String::new();
    let mut i: usize = 0;
    proof {
        assert(sv.take(0) =~= Seq::empty());
    }
    while i < settings.len()
        invariant
            0 <= i <= settings@.len(),
            sv == settings_view(settings@),
            r@ == form_body(sv.take(i as int)),
        decreases settings@.len() - i,
    {
        let s = &settings[i];
        let ghost before = r@;
        if i > 0 {
            r.append("&");
        }
        r.append(s.key.as_str());
        r.append("=");
        r.append(s.val.as_str());
        proof {
            let next = sv.take(i + 1);
            assert(next.drop_last() =~= sv.take(i as int));
            assert(next.last() == s@);
            if i == 0 {
                assert(next.len() == 1);
                assert(r@ =~= form_pair(next[0]));
            } else {
                assert(r@ =~= before + "&"@ + form_pair(next.last()));
            }
        }
        i = i + 1;
    }
    proof {
        assert(sv.take(i as int) =~= sv);
    }
    r
}

} // verus!
