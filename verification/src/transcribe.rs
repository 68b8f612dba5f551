//! Dictation: which speech-to-text backend is configured, whether the whole
//! chain (recorder, whisper program, model, runtime directory) is present,
//! and how the backends' output becomes a task title. Processes, files and
//! signals are the caller's.

use vstd::prelude::*;
use crate::config::Settings;
use crate::task::concat;
use crate::text::{
    chars_eq_str, chars_of, join, spec_join, spec_split_whitespace, spec_trim, split_whitespace,
    string_of, trim, views, line_segments, spec_line_segments,
};

verus! {

/// The recording program (PipeWire).
pub const PW_RECORD: &'static str = "pw-record";

/// The openai-whisper command line program, looked up in `PATH`.
pub const WHISPER_CLI: &'static str = "whisper";

/// Default model of the openai-whisper backend when the setting is empty.
pub const WHISPER_MODELL_VORGABE: &'static str = "small";

/// Language handed to both backends.
pub const SPRACHE: &'static str = "de";

/// Sample rate of the recording; both backends work on 16 kHz.
pub const ABTASTRATE: &'static str = "16000";

/// The configured speech-to-text backend.
#[derive(Debug, Clone, Copy, PartialEq, Eq, Structural)]
pub enum SttBackend {
    /// `whisper` from `PATH`.
    OpenAiWhisper,
    /// A self-built `whisper-cli` and a GGML model file, both configured as
    /// paths.
    WhisperCpp,
}

/// The backend a setting names (trimmed); unknown names give `None`.
pub open spec fn spec_backend(wert: Seq<char>) -> Option<SttBackend> {
    let t = spec_trim(wert);
    if t == "openai-whisper"@ {
        Some(SttBackend::OpenAiWhisper)
    } else if t == "whisper-cpp"@ {
        Some(SttBackend::WhisperCpp)
    } else {
        None
    }
}

impl SttBackend {
    /// The backend a configuration value names; `None` for an unknown one,
    /// so that the microphone is hidden instead of guessed.
    pub fn aus_config(wert: &str) -> (r: Option<Self>)
        ensures
            r == spec_backend(wert@),
    {
        let t = trim(&chars_of(wert));
        if chars_eq_str(&t, "openai-whisper") {
            Some(SttBackend::OpenAiWhisper)
        } else if chars_eq_str(&t, "whisper-cpp") {
            Some(SttBackend::WhisperCpp)
        } else {
            None
        }
    }
}

/// What the dictation chain lacks, with the name or path that was looked for.
#[derive(Debug, Clone, PartialEq, Eq)]
pub enum Fehlend {
    /// No `pw-record` in `PATH`.
    Aufnahmeprogramm,
    /// The backend setting names no known backend.
    UnbekanntesBackend(String),
    /// The whisper program is missing (name in `PATH`, or configured path).
    Whisperprogramm(String),
    /// The GGML model file of the whisper-cpp backend is missing.
    Modelldatei(String),
    /// The runtime directory cannot be created or written.
    Laufzeitverzeichnis(String),
}

/// The abstract value of a [`Fehlend`].
pub enum FehlendModel {
    Aufnahmeprogramm,
    UnbekanntesBackend(Seq<char>),
    Whisperprogramm(Seq<char>),
    Modelldatei(Seq<char>),
    Laufzeitverzeichnis(Seq<char>),
}

impl View for Fehlend {
    type V = FehlendModel;

    open spec fn view(&self) -> FehlendModel {
        match self {
            Fehlend::Aufnahmeprogramm => FehlendModel::Aufnahmeprogramm,
            Fehlend::UnbekanntesBackend(n) => FehlendModel::UnbekanntesBackend(n@),
            Fehlend::Whisperprogramm(n) => FehlendModel::Whisperprogramm(n@),
            Fehlend::Modelldatei(n) => FehlendModel::Modelldatei(n@),
            Fehlend::Laufzeitverzeichnis(n) => FehlendModel::Laufzeitverzeichnis(n@),
        }
    }
}

/// The message of a missing piece.
pub open spec fn spec_fehlend_text(f: FehlendModel) -> Seq<char> {
    match f {
        FehlendModel::Aufnahmeprogramm => "Diktat nicht möglich: pw-record nicht gefunden"@,
        FehlendModel::UnbekanntesBackend(n) => "Diktat nicht möglich: unbekanntes Spracherkennungs-Backend „"@
            + n + "“"@,
        FehlendModel::Whisperprogramm(p) => "Diktat nicht möglich: Whisper-Programm „"@ + p
            + "“ nicht gefunden"@,
        FehlendModel::Modelldatei(p) => "Diktat nicht möglich: Modelldatei „"@ + p
            + "“ nicht gefunden"@,
        FehlendModel::Laufzeitverzeichnis(p) => "Diktat nicht möglich: Laufzeitverzeichnis „"@ + p
            + "“ nicht beschreibbar"@,
    }
}

fn wrap3(a: &str, b: &str, c: &str) -> (r: String)
    ensures
        r@ == a@ + b@ + c@,
{
    let x = concat(a, b);
    concat(x.as_str(), c)
}

impl Fehlend {
    /// The message shown for the missing piece.
    pub fn message(&self) -> (r: String)
        ensures
            r@ == spec_fehlend_text(self@),
    {
        match self {
            Fehlend::Aufnahmeprogramm => String::from_str(
                "Diktat nicht möglich: pw-record nicht gefunden",
            ),
            Fehlend::UnbekanntesBackend(n) => wrap3(
                "Diktat nicht möglich: unbekanntes Spracherkennungs-Backend „",
                n.as_str(),
                "“",
            ),
            Fehlend::Whisperprogramm(p) => wrap3(
                "Diktat nicht möglich: Whisper-Programm „",
                p.as_str(),
                "“ nicht gefunden",
            ),
            Fehlend::Modelldatei(p) => wrap3(
                "Diktat nicht möglich: Modelldatei „",
                p.as_str(),
                "“ nicht gefunden",
            ),
            Fehlend::Laufzeitverzeichnis(p) => wrap3(
                "Diktat nicht möglich: Laufzeitverzeichnis „",
                p.as_str(),
                "“ nicht beschreibbar",
            ),
        }
    }
}

/// Errors of the dictation chain.
#[derive(Debug, Clone, PartialEq, Eq)]
pub enum TranskriptFehler {
    /// Something could not be started.
    Start(String),
    /// The recording could not be ended cleanly.
    Aufnahme(String),
    /// The backend ran but reported a failure.
    Backend(String),
    /// The output file is missing or not in the expected format.
    Ausgabe(String),
    /// A clean run that recognised no word.
    Leer,
    /// The chain is incomplete (the same check as the start probe).
    NichtVerfuegbar(Fehlend),
}

/// The message of a dictation error.
pub open spec fn spec_transkript_text(e: TranskriptFehler) -> Seq<char> {
    match e {
        TranskriptFehler::Start(m) => "Diktat lässt sich nicht starten: "@ + m@,
        TranskriptFehler::Aufnahme(m) => "Aufnahme: "@ + m@,
        TranskriptFehler::Backend(m) => "Spracherkennung: "@ + m@,
        TranskriptFehler::Ausgabe(m) => "Ausgabe der Spracherkennung: "@ + m@,
        TranskriptFehler::Leer => "Keine Sprache erkannt."@,
        TranskriptFehler::NichtVerfuegbar(f) => spec_fehlend_text(f@),
    }
}

impl TranskriptFehler {
    /// The message shown for the error.
    pub fn message(&self) -> (r: String)
        ensures
            r@ == spec_transkript_text(*self),
    {
        match self {
            TranskriptFehler::Start(m) => concat("Diktat lässt sich nicht starten: ", m.as_str()),
            TranskriptFehler::Aufnahme(m) => concat("Aufnahme: ", m.as_str()),
            TranskriptFehler::Backend(m) => concat("Spracherkennung: ", m.as_str()),
            TranskriptFehler::Ausgabe(m) => concat("Ausgabe der Spracherkennung: ", m.as_str()),
            TranskriptFehler::Leer => String::from_str("Keine Sprache erkannt."),
            TranskriptFehler::NichtVerfuegbar(f) => f.message(),
        }
    }
}

// ─── Availability ───────────────────────────────────────────────────────────

/// What the probes found: `pw-record` and `whisper` in `PATH`, the
/// configured whisper-cli program executable, the configured model a file,
/// the runtime directory writable.
pub struct Befunde {
    pub pw_record: bool,
    pub whisper_im_pfad: bool,
    pub programm_ausfuehrbar: bool,
    pub modell_ist_datei: bool,
    pub laufzeit_schreibbar: bool,
}

/// The verdict of the probe, from what the probes found. Probes are asked in
/// order and only as far as needed: recorder, backend name, the backend's
/// program (and model), runtime directory.
pub open spec fn spec_verfuegbarkeit(
    backend: Seq<char>,
    programm: Seq<char>,
    modell: Seq<char>,
    b: Befunde,
    laufzeit: Seq<char>,
) -> Result<(), FehlendModel> {
    if !b.pw_record {
        Err(FehlendModel::Aufnahmeprogramm)
    } else {
        match spec_backend(backend) {
            None => Err(FehlendModel::UnbekanntesBackend(spec_trim(backend))),
            Some(SttBackend::OpenAiWhisper) => if !b.whisper_im_pfad {
                Err(FehlendModel::Whisperprogramm("whisper"@))
            } else if !b.laufzeit_schreibbar {
                Err(FehlendModel::Laufzeitverzeichnis(laufzeit))
            } else {
                Ok(())
            },
            Some(SttBackend::WhisperCpp) => if spec_trim(programm).len() == 0
                || !b.programm_ausfuehrbar {
                Err(FehlendModel::Whisperprogramm(spec_trim(programm)))
            } else if spec_trim(modell).len() == 0 || !b.modell_ist_datei {
                Err(FehlendModel::Modelldatei(spec_trim(modell)))
            } else if !b.laufzeit_schreibbar {
                Err(FehlendModel::Laufzeitverzeichnis(laufzeit))
            } else {
                Ok(())
            },
        }
    }
}

/// The view of a verdict.
pub open spec fn verdict_view(r: Result<(), Fehlend>) -> Result<(), FehlendModel> {
    match r {
        Ok(()) => Ok(()),
        Err(f) => Err(f@),
    }
}

fn trimmed_string(s: &String) -> (r: String)
    ensures
        r@ == spec_trim(s@),
{
    let t = trim(&chars_of(s.as_str()));
    string_of(t.as_slice())
}

/// The probe's verdict from what the probes found (see
/// [`spec_verfuegbarkeit`]); `laufzeit` is the runtime directory as shown.
pub fn verfuegbarkeit_aus(settings: &Settings, befunde: &Befunde, laufzeit: &str) -> (r: Result<
    (),
    Fehlend,
>)
    ensures
        verdict_view(r) == spec_verfuegbarkeit(
            settings.ai_stt_backend@,
            settings.ai_whisper_cpp_binary@,
            settings.ai_whisper_cpp_model@,
            *befunde,
            laufzeit@,
        ),
{
    if !befunde.pw_record {
        return Err(Fehlend::Aufnahmeprogramm);
    }
    match SttBackend::aus_config(settings.ai_stt_backend.as_str()) {
        None => Err(Fehlend::UnbekanntesBackend(trimmed_string(&settings.ai_stt_backend))),
        Some(SttBackend::OpenAiWhisper) => {
            if !befunde.whisper_im_pfad {
                Err(Fehlend::Whisperprogramm(String::from_str("whisper")))
            } else if !befunde.laufzeit_schreibbar {
                Err(Fehlend::Laufzeitverzeichnis(laufzeit.to_owned()))
            } else {
                Ok(())
            }
        },
        Some(SttBackend::WhisperCpp) => {
            let programm = trimmed_string(&settings.ai_whisper_cpp_binary);
            if programm.as_str().is_empty() || !befunde.programm_ausfuehrbar {
                return Err(Fehlend::Whisperprogramm(programm));
            }
            let modell = trimmed_string(&settings.ai_whisper_cpp_model);
            if modell.as_str().is_empty() || !befunde.modell_ist_datei {
                Err(Fehlend::Modelldatei(modell))
            } else if !befunde.laufzeit_schreibbar {
                Err(Fehlend::Laufzeitverzeichnis(laufzeit.to_owned()))
            } else {
                Ok(())
            }
        },
    }
}

/// The start probe with exchangeable surroundings: `im_pfad` looks a program
/// up in `PATH`, `ausfuehrbar` tests a path for an executable file,
/// `ist_datei` tests a path for a file, `laufzeit_schreibbar` tests the
/// runtime directory `laufzeit`. Each probe runs only where the verdict
/// still depends on it; the verdict is [`spec_verfuegbarkeit`] of what they
/// answered.
pub fn verfuegbarkeit_mit<P, A, D, L>(
    settings: &Settings,
    im_pfad: &P,
    ausfuehrbar: &A,
    ist_datei: &D,
    laufzeit_schreibbar: &L,
    laufzeit: &str,
) -> (r: Result<(), Fehlend>) where
    P: Fn(&str) -> bool,
    A: Fn(&str) -> bool,
    D: Fn(&str) -> bool,
    L: Fn() -> bool,

    requires
        forall|s: &str| im_pfad.requires((s,)),
        forall|s: &str| ausfuehrbar.requires((s,)),
        forall|s: &str| ist_datei.requires((s,)),
        laufzeit_schreibbar.requires(()),
    ensures
        exists|b: Befunde|
            verdict_view(r) == #[trigger] spec_verfuegbarkeit(
                settings.ai_stt_backend@,
                settings.ai_whisper_cpp_binary@,
                settings.ai_whisper_cpp_model@,
                b,
                laufzeit@,
            ) && im_pfad.ensures((PW_RECORD,), b.pw_record) && (b.pw_record && spec_backend(
                settings.ai_stt_backend@,
            ) == Some(SttBackend::OpenAiWhisper) ==> im_pfad.ensures(
                (WHISPER_CLI,),
                b.whisper_im_pfad,
            ) && (b.whisper_im_pfad ==> laufzeit_schreibbar.ensures((), b.laufzeit_schreibbar)))
                && (b.pw_record && spec_backend(settings.ai_stt_backend@) == Some(
                SttBackend::WhisperCpp,
            ) && spec_trim(settings.ai_whisper_cpp_binary@).len() > 0 ==> (exists|p: &str|
                p@ == spec_trim(settings.ai_whisper_cpp_binary@) && #[trigger] ausfuehrbar.ensures(
                    (p,),
                    b.programm_ausfuehrbar,
                )) && (b.programm_ausfuehrbar && spec_trim(settings.ai_whisper_cpp_model@).len()
                > 0 ==> (exists|m: &str|
                m@ == spec_trim(settings.ai_whisper_cpp_model@) && #[trigger] ist_datei.ensures(
                    (m,),
                    b.modell_ist_datei,
                )) && (b.modell_ist_datei ==> laufzeit_schreibbar.ensures(
                (),
                b.laufzeit_schreibbar,
            )))),
{
    let mut b = Befunde {
        pw_record: true,
        whisper_im_pfad: true,
        programm_ausfuehrbar: true,
        modell_ist_datei: true,
        laufzeit_schreibbar: true,
    };
    b.pw_record = im_pfad(PW_RECORD);
    if b.pw_record {
        match SttBackend::aus_config(settings.ai_stt_backend.as_str()) {
            None => {},
            Some(SttBackend::OpenAiWhisper) => {
                b.whisper_im_pfad = im_pfad(WHISPER_CLI);
                if b.whisper_im_pfad {
                    b.laufzeit_schreibbar = laufzeit_schreibbar();
                }
            },
            Some(SttBackend::WhisperCpp) => {
                let programm = trimmed_string(&settings.ai_whisper_cpp_binary);
                if !programm.as_str().is_empty() {
                    b.programm_ausfuehrbar = ausfuehrbar(programm.as_str());
                    if b.programm_ausfuehrbar {
                        let modell = trimmed_string(&settings.ai_whisper_cpp_model);
                        if !modell.as_str().is_empty() {
                            b.modell_ist_datei = ist_datei(modell.as_str());
                            if b.modell_ist_datei {
                                b.laufzeit_schreibbar = laufzeit_schreibbar();
                            }
                        }
                    }
                }
            },
        }
    }
    verfuegbarkeit_aus(settings, &b, laufzeit)
}

// ─── Output ─────────────────────────────────────────────────────────────────

/// The program named in error messages: `whisper`, or the configured
/// whisper-cli path (trimmed).
pub fn programmname(backend: SttBackend, settings: &Settings) -> (r: String)
    ensures
        r@ == match backend {
            SttBackend::OpenAiWhisper => "whisper"@,
            SttBackend::WhisperCpp => spec_trim(settings.ai_whisper_cpp_binary@),
        },
{
    match backend {
        SttBackend::OpenAiWhisper => String::from_str("whisper"),
        SttBackend::WhisperCpp => trimmed_string(&settings.ai_whisper_cpp_binary),
    }
}

/// The trimmed value, or the default where it is empty.
pub fn nicht_leer(wert: &str, vorgabe: &str) -> (r: String)
    ensures
        r@ == if spec_trim(wert@).len() == 0 {
            vorgabe@
        } else {
            spec_trim(wert@)
        },
{
    let t = trim(&chars_of(wert));
    if t.len() == 0 {
        vorgabe.to_owned()
    } else {
        string_of(t.as_slice())
    }
}

/// The last line of a text that is not blank, trimmed.
pub open spec fn last_nonblank(segs: Seq<Seq<char>>) -> Option<Seq<char>>
    decreases segs.len(),
{
    if segs.len() == 0 {
        None
    } else if spec_trim(segs.last()).len() > 0 {
        Some(spec_trim(segs.last()))
    } else {
        last_nonblank(segs.drop_last())
    }
}

/// The meaningful line of an error output: its last non-blank line, trimmed,
/// or `keine Fehlerausgabe`.
pub open spec fn spec_letzte_zeile(text: Seq<char>) -> Seq<char> {
    match last_nonblank(spec_line_segments(text)) {
        Some(z) => z,
        None => "keine Fehlerausgabe"@,
    }
}

/// The last non-blank line of an error output (both backends are chatty on
/// standard error).
pub fn letzte_zeile(text: &str) -> (r: String)
    ensures
        r@ == spec_letzte_zeile(text@),
{
    let segs = line_segments(&chars_of(text));
    let ghost vs = views(segs@);
    let mut k: usize = segs.len();
    assert(vs.take(k as int) =~= vs);
    while k > 0
        invariant
            k <= segs.len(),
            vs == views(segs@),
            vs == spec_line_segments(text@),
            last_nonblank(vs) == last_nonblank(vs.take(k as int)),
        decreases k,
    {
        let t = trim(&segs[k - 1]);
        assert(vs.take(k as int).drop_last() =~= vs.take(k - 1));
        assert(vs.take(k as int).last() == segs@[k - 1]@);
        if t.len() > 0 {
            assert(last_nonblank(vs.take(k as int)) == Some(t@));
            return string_of(t.as_slice());
        }
        k = k - 1;
    }
    assert(vs.take(0) =~= Seq::<Seq<char>>::empty());
    String::from_str("keine Fehlerausgabe")
}

/// Whitespace made uniform: the words joined by single spaces.
pub open spec fn spec_normalisiere(text: Seq<char>) -> Seq<char> {
    spec_join(spec_split_whitespace(text), " "@)
}

/// Makes whitespace uniform; the backends put leading spaces and line breaks
/// in every segment, but the result becomes a task title.
pub fn normalisiere(text: &str) -> (r: String)
    ensures
        r@ == spec_normalisiere(text@),
{
    let words = split_whitespace(&chars_of(text));
    let sep = chars_of(" ");
    let j = join(&words, &sep);
    string_of(j.as_slice())
}

/// The text of an openai-whisper transcript whose JSON was read: its `text`
/// field normalised, or an output error when the field is missing.
pub fn openai_transkript(text_feld: Option<String>) -> (r: Result<String, TranskriptFehler>)
    ensures
        match text_feld {
            Some(t) => r matches Ok(s) && s@ == spec_normalisiere(t@),
            None => r matches Err(TranskriptFehler::Ausgabe(m)) && m@
                == "openai-whisper: Feld „text“ fehlt"@,
        },
{
    match text_feld {
        Some(t) => Ok(normalisiere(t.as_str())),
        None => Err(TranskriptFehler::Ausgabe(String::from_str("openai-whisper: Feld „text“ fehlt"))),
    }
}

/// The texts of the segments that have one, in order.
pub open spec fn segment_texts(segs: Seq<Option<Seq<char>>>) -> Seq<Seq<char>>
    decreases segs.len(),
{
    if segs.len() == 0 {
        Seq::empty()
    } else {
        let prev = segment_texts(segs.drop_last());
        match segs.last() {
            Some(t) => prev.push(t),
            None => prev,
        }
    }
}

/// The text of a whisper.cpp transcript whose JSON was read: the texts of
/// the `transcription` segments joined by spaces and normalised, or an
/// output error when the list is missing.
pub fn whisper_cpp_transkript(segmente: Option<Vec<Option<String>>>) -> (r: Result<
    String,
    TranskriptFehler,
>)
    ensures
        match segmente {
            Some(s) => r matches Ok(t) && t@ == spec_normalisiere(
                spec_join(segment_texts(s.deep_view()), " "@),
            ),
            None => r matches Err(TranskriptFehler::Ausgabe(m)) && m@
                == "whisper.cpp: Feld „transcription“ fehlt"@,
        },
{
    match segmente {
        None => Err(
            TranskriptFehler::Ausgabe(String::from_str("whisper.cpp: Feld „transcription“ fehlt")),
        ),
        Some(segs) => {
            let mut texte: Vec<String> = Vec::new();
            let mut i: usize = 0;
            assert(segs.deep_view().take(0) =~= Seq::<Option<Seq<char>>>::empty());
            while i < segs.len()
                invariant
                    i <= segs.len(),
                    texte.deep_view() == segment_texts(segs.deep_view().take(i as int)),
                decreases segs.len() - i,
            {
                assert(segs.deep_view().take(i + 1).drop_last() =~= segs.deep_view().take(i as int));
                let ghost before = texte.deep_view();
                match &segs[i] {
                    Some(t) => {
                        texte.push(t.clone());
                        assert(texte.deep_view() =~= before.push(t@));
                    },
                    None => {},
                }
                i = i + 1;
            }
            assert(segs.deep_view().take(segs.len() as int) =~= segs.deep_view());
            let joined = crate::text::join_strings(&texte, " ");
            Ok(normalisiere(joined.as_str()))
        },
    }
}

/// The message of a backend that ended with a failure status:
/// `<program> endete mit <status> — <last line of its error output>`.
pub fn backend_fehler(programm: &str, status: &str, stderr: &str) -> (r: TranskriptFehler)
    ensures
        r matches TranskriptFehler::Backend(m) && m@ == programm@ + " endete mit "@ + status@
            + " — "@ + spec_letzte_zeile(stderr@),
{
    let a = concat(programm, " endete mit ");
    let b = concat(a.as_str(), status);
    let c = concat(b.as_str(), " — ");
    let z = letzte_zeile(stderr);
    TranskriptFehler::Backend(concat(c.as_str(), z.as_str()))
}

// ─── Command lines ──────────────────────────────────────────────────────────

/// What `Path::new(s).parent()` gives, as text; `None` for a root or an
/// empty path.
pub uninterp spec fn spec_path_parent(s: Seq<char>) -> Option<Seq<char>>;

/// `std::path::Path::new(s).parent()`, as text.
#[verifier::external_body]
fn path_parent(s: &str) -> (r: Option<String>)
    ensures
        r.deep_view() == spec_path_parent(s@),
{
    std::path::Path::new(s).parent().map(|p| p.to_string_lossy().into_owned())
}

/// What `Path::new(s).with_extension(ext)` gives, as text.
pub uninterp spec fn spec_path_with_extension(s: Seq<char>, ext: Seq<char>) -> Seq<char>;

/// `std::path::Path::new(s).with_extension(ext)`, as text. An extension
/// holding a path separator is left out: recent std refuses it.
#[verifier::external_body]
fn path_with_extension(s: &str, ext: &str) -> (r: String)
    requires
        forall|i: int| 0 <= i < ext@.len() ==> #[trigger] ext@[i] != '/',
    ensures
        r@ == spec_path_with_extension(s@, ext@),
{
    std::path::Path::new(s).with_extension(ext).to_string_lossy().into_owned()
}

/// The name of a recording: `diktat-<process>-<number>.wav`.
pub open spec fn spec_aufnahme_name(prozess: u32, nummer: u64) -> Seq<char> {
    "diktat-"@ + crate::num::spec_i64_decimal(prozess as int) + "-"@ + crate::num::spec_i64_decimal(
        nummer as int,
    ) + ".wav"@
}

/// The file name of the `nummer`-th recording of process `prozess`.
pub fn aufnahme_name(prozess: u32, nummer: u64) -> (r: String)
    requires
        nummer <= i64::MAX,
    ensures
        r@ == spec_aufnahme_name(prozess, nummer),
{
    let p = crate::num::i64_to_string(prozess as i64);
    let n = crate::num::i64_to_string(nummer as i64);
    let a = concat("diktat-", p.as_str());
    let b = concat(a.as_str(), "-");
    let c = concat(b.as_str(), n.as_str());
    concat(c.as_str(), ".wav")
}

/// The command line of a recording into `wav`: mono, 16 kHz, 16 bit.
pub fn aufnahme_kommando(wav: &str) -> (r: (String, Vec<String>))
    ensures
        r.0@ == PW_RECORD@,
        r.1.deep_view() == seq![
            "--rate"@,
            ABTASTRATE@,
            "--channels"@,
            "1"@,
            "--format"@,
            "s16"@,
            wav@,
        ],
{
    let mut args: Vec<String> = Vec::new();
    args.push(String::from_str("--rate"));
    args.push(String::from_str(ABTASTRATE));
    args.push(String::from_str("--channels"));
    args.push(String::from_str("1"));
    args.push(String::from_str("--format"));
    args.push(String::from_str("s16"));
    args.push(wav.to_owned());
    assert(args.deep_view() =~= seq![
        "--rate"@,
        ABTASTRATE@,
        "--channels"@,
        "1"@,
        "--format"@,
        "s16"@,
        wav@,
    ]);
    (String::from_str(PW_RECORD), args)
}

/// The command line of a transcription of `wav`. Both backends write their
/// JSON next to the recording under its stem: openai-whisper through
/// `--output_dir` (the directory of the recording, `.` if it has none),
/// whisper.cpp through `-of` (the path without extension).
pub open spec fn spec_kommando(backend: SttBackend, settings: Settings, wav: Seq<char>) -> (
    Seq<char>,
    Seq<Seq<char>>,
) {
    match backend {
        SttBackend::OpenAiWhisper => (
            WHISPER_CLI@,
            seq![
                "--model"@,
                if spec_trim(settings.ai_whisper_model@).len() == 0 {
                    WHISPER_MODELL_VORGABE@
                } else {
                    spec_trim(settings.ai_whisper_model@)
                },
                "--language"@,
                SPRACHE@,
                "--output_format"@,
                "json"@,
                "--output_dir"@,
                match spec_path_parent(wav) {
                    Some(d) => d,
                    None => "."@,
                },
                wav,
            ],
        ),
        SttBackend::WhisperCpp => (
            spec_trim(settings.ai_whisper_cpp_binary@),
            seq![
                "-m"@,
                spec_trim(settings.ai_whisper_cpp_model@),
                "-f"@,
                wav,
                "-l"@,
                SPRACHE@,
                "--output-json"@,
                "-of"@,
                spec_path_with_extension(wav, ""@),
                "--no-prints"@,
            ],
        ),
    }
}

/// Builds the command line of a transcription (see [`spec_kommando`]):
/// program and arguments.
pub fn kommando(backend: SttBackend, settings: &Settings, wav: &str) -> (r: (String, Vec<String>))
    ensures
        (r.0@, r.1.deep_view()) == spec_kommando(backend, *settings, wav@),
{
    let mut args: Vec<String> = Vec::new();
    match backend {
        SttBackend::OpenAiWhisper => {
            let modell = nicht_leer(settings.ai_whisper_model.as_str(), WHISPER_MODELL_VORGABE);
            let verzeichnis = match path_parent(wav) {
                Some(d) => d,
                None => String::from_str("."),
            };
            args.push(String::from_str("--model"));
            args.push(modell);
            args.push(String::from_str("--language"));
            args.push(String::from_str(SPRACHE));
            args.push(String::from_str("--output_format"));
            args.push(String::from_str("json"));
            args.push(String::from_str("--output_dir"));
            args.push(verzeichnis);
            args.push(wav.to_owned());
            let ghost want = spec_kommando(backend, *settings, wav@).1;
            assert(args.deep_view() =~= want);
            (String::from_str(WHISPER_CLI), args)
        },
        SttBackend::WhisperCpp => {
            let programm = trimmed_string(&settings.ai_whisper_cpp_binary);
            let modell = trimmed_string(&settings.ai_whisper_cpp_model);
            proof {
                reveal_strlit("");
            }
            let stamm = path_with_extension(wav, "");
            args.push(String::from_str("-m"));
            args.push(modell);
            args.push(String::from_str("-f"));
            args.push(wav.to_owned());
            args.push(String::from_str("-l"));
            args.push(String::from_str(SPRACHE));
            args.push(String::from_str("--output-json"));
            args.push(String::from_str("-of"));
            args.push(stamm);
            args.push(String::from_str("--no-prints"));
            let ghost want = spec_kommando(backend, *settings, wav@).1;
            assert(args.deep_view() =~= want);
            (programm, args)
        },
    }
}

/// Where a transcription of `wav` lands: the recording's path with the
/// extension `json`, for both backends.
pub fn transkript_pfad(wav: &str) -> (r: String)
    ensures
        r@ == spec_path_with_extension(wav@, "json"@),
{
    proof {
        reveal_strlit("json");
    }
    path_with_extension(wav, "json")
}

/// A recognised text that is empty is the error `Leer`.
pub fn nicht_leerer_text(text: String) -> (r: Result<String, TranskriptFehler>)
    ensures
        text@.len() == 0 ==> r == Err::<String, TranskriptFehler>(TranskriptFehler::Leer),
        text@.len() > 0 ==> r == Ok::<String, TranskriptFehler>(text),
{
    if text.as_str().is_empty() {
        Err(TranskriptFehler::Leer)
    } else {
        Ok(text)
    }
}

} // verus!
