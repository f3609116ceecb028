//! What the user-facing commands compute: the languages offered and the
//! services listed per mode.

use crate::asr::engine::LanguageInfo;
use crate::text::{chars_to_string, push_str};
use crate::translate::factory::{of_mode, TranslationServiceFactory};
use crate::translate::service::{all_modes, mode_of_key, ServiceDescriptor, ServiceInfo, TranslateMode};
use vstd::prelude::*;

verus! {

/// The languages offered for subtitles, as (code, native name).
pub open spec fn native_languages() -> Seq<(Seq<char>, Seq<char>)> {
    seq![
        ("auto"@, "Auto Detect"@),
        ("en"@, "English"@),
        ("zh"@, "中文"@),
        ("ja"@, "日本語"@),
        ("ko"@, "한국어"@),
        ("fr"@, "Français"@),
        ("de"@, "Deutsch"@),
        ("es"@, "Español"@),
        ("ru"@, "Русский"@),
        ("pt"@, "Português"@),
        ("it"@, "Italiano"@),
        ("ar"@, "العربية"@),
        ("hi"@, "हिन्दी"@),
        ("th"@, "ไทย"@),
        ("vi"@, "Tiếng Việt"@),
    ]
}

fn lang(code: &str, name: &str) -> (l: LanguageInfo)
    ensures
        l.code@ == code@,
        l.name@ == name@,
{
    LanguageInfo { code: code.to_owned(), name: name.to_owned() }
}

/// The languages offered, each under its native name.
pub fn get_supported_languages() -> (v: Vec<LanguageInfo>)
    ensures
        v@.len() == native_languages().len(),
        forall|i: int|
            0 <= i < v@.len() ==> (#[trigger] v@[i]).code@ == native_languages()[i].0 && v@[i].name@
                == native_languages()[i].1,
{
    vec![
        lang("auto", "Auto Detect"),
        lang("en", "English"),
        lang("zh", "中文"),
        lang("ja", "日本語"),
        lang("ko", "한국어"),
        lang("fr", "Français"),
        lang("de", "Deutsch"),
        lang("es", "Español"),
        lang("ru", "Русский"),
        lang("pt", "Português"),
        lang("it", "Italiano"),
        lang("ar", "العربية"),
        lang("hi", "हिन्दी"),
        lang("th", "ไทย"),
        lang("vi", "Tiếng Việt"),
    ]
}

/// The services of every mode, mode after mode.
pub open spec fn all_mode_services(ds: Seq<ServiceDescriptor>) -> Seq<ServiceDescriptor> {
    of_mode(ds, TranslateMode::OnlineTranslate) + of_mode(ds, TranslateMode::OnlineLlm) + of_mode(
        ds,
        TranslateMode::LocalLlm,
    ) + of_mode(ds, TranslateMode::EmbeddedLlm)
}

/// `Unsupported mode: <key>`.
pub open spec fn unsupported_mode_message(k: Seq<char>) -> Seq<char> {
    "Unsupported mode: "@ + k
}

/// The services of the named mode, or of all modes when none is named; an
/// unknown mode is refused.
pub fn list_translate_services(factory: &TranslationServiceFactory, mode_key: Option<&str>) -> (r: Result<
    Vec<ServiceInfo>,
    String,
>)
    ensures
        match mode_key {
            Some(k) => match mode_of_key(k@) {
                Some(m) => r matches Ok(v) && v@.map_values(|s: ServiceInfo| s.descriptor@) == of_mode(
                    factory.descriptors@,
                    m,
                ).map_values(|d: ServiceDescriptor| d@),
                None => r matches Err(e) && e@ == unsupported_mode_message(k@),
            },
            None => r matches Ok(v) && v@.map_values(|s: ServiceInfo| s.descriptor@) == all_mode_services(
                factory.descriptors@,
            ).map_values(|d: ServiceDescriptor| d@),
        },
{
    match mode_key {
        Some(k) => match TranslateMode::from_key(k) {
            Some(m) => Ok(factory.services_by_mode(m)),
            None => {
                let mut out: Vec<char> = Vec::new();
                push_str(&mut out, "Unsupported mode: ");
                push_str(&mut out, k);
                Err(chars_to_string(out.as_slice()))
            },
        },
        None => {
            let ghost ds = factory.descriptors@;
            let mut all: Vec<ServiceInfo> = Vec::new();
            let modes = TranslateMode::all();
            let mut i: usize = 0;
            while i < modes.len()
                invariant
                    i <= modes@.len(),
                    modes@ == all_modes(),
                    ds == factory.descriptors@,
                    all@.map_values(|s: ServiceInfo| s.descriptor@) == (if i == 0 {
                        Seq::empty()
                    } else if i == 1 {
                        of_mode(ds, TranslateMode::OnlineTranslate)
                    } else if i == 2 {
                        of_mode(ds, TranslateMode::OnlineTranslate) + of_mode(ds, TranslateMode::OnlineLlm)
                    } else if i == 3 {
                        of_mode(ds, TranslateMode::OnlineTranslate) + of_mode(ds, TranslateMode::OnlineLlm)
                            + of_mode(ds, TranslateMode::LocalLlm)
                    } else {
                        all_mode_services(ds)
                    }).map_values(|d: ServiceDescriptor| d@),
                decreases modes.len() - i,
            {
                let mut part = factory.services_by_mode(modes[i]);
                let ghost before = all@;
                let ghost pv = part@;
                all.append(&mut part);
                proof {
                    assert(all@ == before + pv);
                    assert(all@.map_values(|s: ServiceInfo| s.descriptor@) =~= before.map_values(
                        |s: ServiceInfo| s.descriptor@,
                    ) + pv.map_values(|s: ServiceInfo| s.descriptor@));
                }
                i = i + 1;
            }
            Ok(all)
        },
    }
}

} // verus!
