//! Application-wide settings read from the `@app` annotation: the name,
//! playback, event ordering, statistics level, buffer size and transport
//! channel creation.

use vstd::prelude::*;
use crate::engine::config::eventflux_app_context::MetricsLevelPlaceholder;
use crate::number::{parse_i64, parse_i64_spec};
use crate::query_api::definition::annotation::Annotation;
use crate::text::{eq_ignore_ascii_case, eq_ignore_ascii_case_spec, lowercase, owned, str_eq, to_lowercase};

verus! {

/// The settings an application runs with.
#[derive(Debug, Clone)]
pub struct AppSettings {
    pub name: String,
    pub playback: bool,
    pub enforce_order: bool,
    pub root_metrics: MetricsLevelPlaceholder,
    /// Zero when no valid size was given.
    pub buffer_size: i32,
    pub transport_channel_creation: bool,
}

/// The settings as values: name, playback, enforce order, statistics level,
/// buffer size, transport channel creation.
pub type SettingsView = (Seq<char>, bool, bool, MetricsLevelPlaceholder, i32, bool);

impl AppSettings {
    pub open spec fn view_of(&self) -> SettingsView {
        (self.name@, self.playback, self.enforce_order, self.root_metrics, self.buffer_size, self.transport_channel_creation)
    }
}

/// `v` is `true` in any case.
pub open spec fn is_true(v: Seq<char>) -> bool {
    eq_ignore_ascii_case_spec(v, "true"@)
}

/// The statistics level a value names (compared in lower case).
pub open spec fn metrics_level(v: Seq<char>) -> MetricsLevelPlaceholder {
    let l = lowercase(v);
    if l == "true"@ || l == "basic"@ {
        MetricsLevelPlaceholder::BASIC
    } else if l == "detail"@ || l == "detailed"@ {
        MetricsLevelPlaceholder::DETAIL
    } else {
        MetricsLevelPlaceholder::OFF
    }
}

/// `str::parse::<i32>`: as for `i64`, within the range of `i32`.
pub open spec fn parse_i32_spec(v: Seq<char>) -> Option<i32> {
    match parse_i64_spec(v) {
        Some(n) => if i32::MIN <= n <= i32::MAX { Some(n as i32) } else { None },
        None => None,
    }
}

/// The settings after one `key = value` element (keys compared in lower
/// case; unknown keys and unparsable sizes change nothing).
pub open spec fn apply_element(s: SettingsView, key: Seq<char>, value: Seq<char>) -> SettingsView {
    let k = lowercase(key);
    if k == "name"@ {
        (value, s.1, s.2, s.3, s.4, s.5)
    } else if k == "playback"@ {
        (s.0, is_true(value), s.2, s.3, s.4, s.5)
    } else if k == "enforce.order"@ || k == "enforceorder"@ {
        (s.0, s.1, is_true(value), s.3, s.4, s.5)
    } else if k == "statistics"@ || k == "stats"@ {
        (s.0, s.1, s.2, metrics_level(value), s.4, s.5)
    } else if k == "buffer_size"@ || k == "buffersize"@ {
        match parse_i32_spec(value) {
            Some(n) => (s.0, s.1, s.2, s.3, n, s.5),
            None => s,
        }
    } else if k == "transport.channel.creation"@ {
        (s.0, s.1, s.2, s.3, s.4, is_true(value))
    } else {
        s
    }
}

/// The settings after the elements, applied in order.
pub open spec fn apply_elements(s: SettingsView, els: Seq<(String, String)>) -> SettingsView
    decreases els.len(),
{
    if els.len() == 0 {
        s
    } else {
        apply_element(apply_elements(s, els.drop_last()), els.last().0@, els.last().1@)
    }
}

/// The first annotation, from `k` on, named `app` in any case.
pub open spec fn first_app_annotation(anns: Seq<Annotation>, k: int) -> Option<int>
    decreases anns.len() - k,
{
    if k < 0 || k >= anns.len() {
        None
    } else if eq_ignore_ascii_case_spec(anns[k].name@, "app"@) {
        Some(k)
    } else {
        first_app_annotation(anns, k + 1)
    }
}

/// The settings of an application named `app_name` with annotations `anns`:
/// the defaults (the application's name, everything off, buffer size zero),
/// changed by the elements of the first `@app` annotation.
pub open spec fn app_settings_spec(app_name: Seq<char>, anns: Seq<Annotation>) -> SettingsView {
    let defaults = (app_name, false, false, MetricsLevelPlaceholder::OFF, 0i32, false);
    match first_app_annotation(anns, 0) {
        Some(k) => apply_elements(defaults, anns[k].elements@),
        None => defaults,
    }
}

fn parse_i32(v: &str) -> (r: Option<i32>)
    ensures
        r == parse_i32_spec(v@),
{
    match parse_i64(v) {
        Some(n) => if -2147483648 <= n && n <= 2147483647 { Some(n as i32) } else { None },
        None => None,
    }
}

fn metrics_level_of(v: &str) -> (r: MetricsLevelPlaceholder)
    ensures
        r == metrics_level(v@),
{
    let l = to_lowercase(v);
    if str_eq(l.as_str(), "true") || str_eq(l.as_str(), "basic") {
        MetricsLevelPlaceholder::BASIC
    } else if str_eq(l.as_str(), "detail") || str_eq(l.as_str(), "detailed") {
        MetricsLevelPlaceholder::DETAIL
    } else {
        MetricsLevelPlaceholder::OFF
    }
}

/// The settings of an application named `app_name`, read from the first
/// `@app` annotation among `annotations` (see `app_settings_spec`).
pub fn app_settings(app_name: &str, annotations: &Vec<Annotation>) -> (r: AppSettings)
    ensures
        r.view_of() == app_settings_spec(app_name@, annotations@),
{
    let mut settings = AppSettings {
        name: owned(app_name),
        playback: false,
        enforce_order: false,
        root_metrics: MetricsLevelPlaceholder::OFF,
        buffer_size: 0,
        transport_channel_creation: false,
    };
    let ghost defaults = settings.view_of();
    let mut k: usize = 0;
    while k < annotations.len()
        invariant
            k <= annotations@.len(),
            settings.view_of() == defaults,
            defaults == (app_name@, false, false, MetricsLevelPlaceholder::OFF, 0i32, false),
            first_app_annotation(annotations@, 0) == first_app_annotation(annotations@, k as int),
        decreases annotations@.len() - k,
    {
        if eq_ignore_ascii_case(annotations[k].name.as_str(), "app") {
            let els = &annotations[k].elements;
            let mut i: usize = 0;
            while i < els.len()
                invariant
                    i <= els@.len(),
                    settings.view_of() == apply_elements(defaults, els@.take(i as int)),
                decreases els@.len() - i,
            {
                proof {
                    assert(els@.take(i + 1).drop_last() =~= els@.take(i as int));
                    assert(els@.take(i + 1).last() == els@[i as int]);
                }
                let key = to_lowercase(els[i].0.as_str());
                let value = &els[i].1;
                if str_eq(key.as_str(), "name") {
                    settings.name = owned(value.as_str());
                } else if str_eq(key.as_str(), "playback") {
                    settings.playback = eq_ignore_ascii_case(value.as_str(), "true");
                } else if str_eq(key.as_str(), "enforce.order") || str_eq(key.as_str(), "enforceorder") {
                    settings.enforce_order = eq_ignore_ascii_case(value.as_str(), "true");
                } else if str_eq(key.as_str(), "statistics") || str_eq(key.as_str(), "stats") {
                    settings.root_metrics = metrics_level_of(value.as_str());
                } else if str_eq(key.as_str(), "buffer_size") || str_eq(key.as_str(), "buffersize") {
                    match parse_i32(value.as_str()) {
                        Some(n) => {
                            settings.buffer_size = n;
                        },
                        None => {},
                    }
                } else if str_eq(key.as_str(), "transport.channel.creation") {
                    settings.transport_channel_creation = eq_ignore_ascii_case(value.as_str(), "true");
                }
                i = i + 1;
            }
            proof {
                assert(els@.take(els@.len() as int) =~= els@);
            }
            return settings;
        }
        k = k + 1;
    }
    settings
}

} // verus!
