//! The static files the dashboard serves, looked up by path.

use vstd::prelude::*;
use vstd::string::StringExecFns;
use crate::text::str_eq;
use crate::pages::{
    INDEX_HTML, CHAT_HTML, MODELS_HTML, SETTINGS_HTML, DOWNLOAD_HTML, SPECULATIVE_HTML,
};

verus! {

/// Static files of the dashboard: the style sheet, the script, the chart
/// library and the font.
#[derive(Clone)]
pub struct FrontendAssets {
    assets: Vec<(String, Vec<u8>)>,
}

/// Contents of the first entry of `es[i..]` stored under `path`.
pub open spec fn asset_from(es: Seq<(String, Vec<u8>)>, path: Seq<char>, i: int) -> Option<Seq<u8>>
    decreases es.len() - i,
{
    if i < 0 || i >= es.len() {
        None
    } else if es[i].0@ == path {
        Some(es[i].1@)
    } else {
        asset_from(es, path, i + 1)
    }
}

impl FrontendAssets {
    /// Contents served under `path`.
    pub closed spec fn asset(&self, path: Seq<char>) -> Option<Seq<u8>> {
        asset_from(self.assets@, path, 0)
    }

    /// The dashboard's files under their paths: `style.css`, `app.js`,
    /// `chart.min.js` and `inter-var.woff2`.
    pub fn new(style_css: Vec<u8>, app_js: Vec<u8>, chart_min_js: Vec<u8>, inter_var_woff2: Vec<u8>) -> (r: Self)
        ensures
            r.asset("style.css"@) == Some(style_css@),
            r.asset("app.js"@) == Some(app_js@),
            r.asset("chart.min.js"@) == Some(chart_min_js@),
            r.asset("inter-var.woff2"@) == Some(inter_var_woff2@),
            forall|p: Seq<char>|
                p != "style.css"@ && p != "app.js"@ && p != "chart.min.js"@ && p
                    != "inter-var.woff2"@ ==> #[trigger] r.asset(p) is None,
    {
        let ghost (a, b, c, d) = (style_css@, app_js@, chart_min_js@, inter_var_woff2@);
        let mut assets: Vec<(String, Vec<u8>)> = Vec::new();
        assets.push((String::from_str("style.css"), style_css));
        assets.push((String::from_str("app.js"), app_js));
        assets.push((String::from_str("chart.min.js"), chart_min_js));
        assets.push((String::from_str("inter-var.woff2"), inter_var_woff2));
        let r = FrontendAssets { assets };
        proof {
            reveal_strlit("style.css");
            reveal_strlit("app.js");
            reveal_strlit("chart.min.js");
            reveal_strlit("inter-var.woff2");
            let es = r.assets@;
            assert(es[0].0@ == "style.css"@ && es[0].1@ == a);
            assert(es[1].0@ == "app.js"@ && es[1].1@ == b);
            assert(es[2].0@ == "chart.min.js"@ && es[2].1@ == c);
            assert(es[3].0@ == "inter-var.woff2"@ && es[3].1@ == d);
            assert("style.css"@ != "app.js"@);
            assert("style.css"@ != "chart.min.js"@);
            assert("style.css"@ != "inter-var.woff2"@);
            assert("app.js"@ != "chart.min.js"@);
            assert("app.js"@ != "inter-var.woff2"@);
            assert("chart.min.js"@ != "inter-var.woff2"@);
            assert(asset_from(es, "inter-var.woff2"@, 3) == Some(d));
            assert(asset_from(es, "chart.min.js"@, 2) == Some(c));
            assert(asset_from(es, "app.js"@, 1) == Some(b));
            assert(asset_from(es, "inter-var.woff2"@, 2) == Some(d));
            assert(asset_from(es, "inter-var.woff2"@, 1) == Some(d));
            assert(asset_from(es, "inter-var.woff2"@, 0) == Some(d));
            assert(asset_from(es, "chart.min.js"@, 1) == Some(c));
            assert(asset_from(es, "chart.min.js"@, 0) == Some(c));
            assert(asset_from(es, "app.js"@, 0) == Some(b));
            assert(asset_from(es, "style.css"@, 0) == Some(a));
            assert forall|p: Seq<char>|
                p != "style.css"@ && p != "app.js"@ && p != "chart.min.js"@ && p
                    != "inter-var.woff2"@ implies #[trigger] r.asset(p) is None by {
                assert(asset_from(es, p, 4) is None);
                assert(asset_from(es, p, 3) is None);
                assert(asset_from(es, p, 2) is None);
                assert(asset_from(es, p, 1) is None);
            }
        }
        r
    }

    /// The file served under `path`, if there is one.
    pub fn get(&self, path: &str) -> (r: Option<&[u8]>)
        ensures
            match self.asset(path@) {
                Some(c) => r matches Some(s) && s@ == c,
                None => r is None,
            },
    {
        let mut i: usize = 0;
        while i < self.assets.len()
            invariant
                i <= self.assets@.len(),
                asset_from(self.assets@, path@, 0) == asset_from(self.assets@, path@, i as int),
            decreases self.assets@.len() - i,
        {
            if str_eq(self.assets[i].0.as_str(), path) {
                return Some(self.assets[i].1.as_slice());
            }
            i = i + 1;
        }
        None
    }

    /// The dashboard shell page.
    pub fn index_html() -> (r: &'static str)
        ensures
            r@ == INDEX_HTML@,
    {
        INDEX_HTML
    }

    /// The chat page.
    pub fn chat_html() -> (r: &'static str)
        ensures
            r@ == CHAT_HTML@,
    {
        CHAT_HTML
    }

    /// The model manager page.
    pub fn models_html() -> (r: &'static str)
        ensures
            r@ == MODELS_HTML@,
    {
        MODELS_HTML
    }

    /// The settings page.
    pub fn settings_html() -> (r: &'static str)
        ensures
            r@ == SETTINGS_HTML@,
    {
        SETTINGS_HTML
    }

    /// The model download page.
    pub fn download_html() -> (r: &'static str)
        ensures
            r@ == DOWNLOAD_HTML@,
    {
        DOWNLOAD_HTML
    }

    /// The speculative decoding page.
    pub fn speculative_html() -> (r: &'static str)
        ensures
            r@ == SPECULATIVE_HTML@,
    {
        SPECULATIVE_HTML
    }
}

} // verus!
