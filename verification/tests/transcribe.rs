use vergissmeinnicht::config::Settings;
use vergissmeinnicht::transcribe::{
    aufnahme_kommando, aufnahme_name, kommando, transkript_pfad, backend_fehler, letzte_zeile, nicht_leer, nicht_leerer_text, normalisiere,
    openai_transkript, programmname, verfuegbarkeit_aus, verfuegbarkeit_mit,
    whisper_cpp_transkript, Befunde, Fehlend, SttBackend, TranskriptFehler, PW_RECORD,
    WHISPER_CLI,
};

const LAUFZEIT: &str = "/run/user/1000/vergissmeinnicht";

const SATZ: &str = "And so, my fellow Americans, ask not what your country can do for you, \
                    ask what you can do for your country.";

fn einstellungen(backend: &str) -> Settings {
    Settings {
        ai_stt_backend: backend.into(),
        ..Settings::default()
    }
}

/// The probe over a list of what exists: program names in `PATH`,
/// executable paths and model files alike. The runtime directory counts as
/// writable here.
fn sonde(settings: &Settings, vorhanden: &[&str]) -> Result<(), Fehlend> {
    let namen: Vec<String> = vorhanden.iter().map(|s| s.to_string()).collect();
    let im_pfad = |name: &str| namen.iter().any(|n| n == name);
    let ausfuehrbar = |pfad: &str| namen.iter().any(|n| n == pfad);
    let ist_datei = |pfad: &str| namen.iter().any(|n| n == pfad);
    verfuegbarkeit_mit(settings, &im_pfad, &ausfuehrbar, &ist_datei, &|| true, LAUFZEIT)
}

#[test]
fn ai_defaults() {
    let s = Settings::default();
    assert_eq!(s.ai_provider, "ollama");
    assert_eq!(s.ai_base_url, "http://localhost:11434/v1");
    assert!(s.ai_model.is_empty());
    assert_eq!(s.ai_stt_backend, "openai-whisper");
    assert_eq!(s.ai_whisper_model, "small");
    assert!(s.ai_whisper_cpp_binary.is_empty());
    assert!(s.ai_whisper_cpp_model.is_empty());
}

#[test]
fn settings_defaults() {
    let s = Settings::default();
    assert_eq!(s.default_filter, "inbox");
    assert_eq!(s.sort_key, "id");
    assert!(s.sort_ascending);
    assert_eq!(s.due_soon_days, 7);
    assert_eq!(s.auto_sync, "manual");
    assert_eq!(s.sidebar_width, 0);
    assert!(s.collapsed_sections.is_empty());
    assert!(s.saved_searches.is_empty());
}

#[test]
fn backend_namen_aus_config() {
    assert_eq!(SttBackend::aus_config("openai-whisper"), Some(SttBackend::OpenAiWhisper));
    assert_eq!(SttBackend::aus_config(" whisper-cpp "), Some(SttBackend::WhisperCpp));
    assert_eq!(SttBackend::aus_config("whisper.cpp"), None);
    assert_eq!(SttBackend::aus_config(""), None);
}

#[test]
fn sonde_gruen_wenn_alles_da_ist() {
    assert_eq!(sonde(&einstellungen("openai-whisper"), &[PW_RECORD, WHISPER_CLI]), Ok(()));
    let mut s = einstellungen("whisper-cpp");
    s.ai_whisper_cpp_binary = "/opt/whisper.cpp/whisper-cli".into();
    s.ai_whisper_cpp_model = "/opt/modelle/ggml-large-v3.bin".into();
    assert_eq!(
        sonde(
            &s,
            &[PW_RECORD, "/opt/whisper.cpp/whisper-cli", "/opt/modelle/ggml-large-v3.bin"]
        ),
        Ok(())
    );
}

#[test]
fn sonde_ohne_pw_record() {
    assert_eq!(
        sonde(&einstellungen("openai-whisper"), &[WHISPER_CLI]),
        Err(Fehlend::Aufnahmeprogramm)
    );
}

#[test]
fn sonde_ohne_whisper_im_pfad() {
    assert_eq!(
        sonde(&einstellungen("openai-whisper"), &[PW_RECORD]),
        Err(Fehlend::Whisperprogramm(WHISPER_CLI.into()))
    );
}

#[test]
fn sonde_bei_unbekanntem_backend() {
    assert_eq!(
        sonde(&einstellungen("whisperx"), &[PW_RECORD, WHISPER_CLI]),
        Err(Fehlend::UnbekanntesBackend("whisperx".into()))
    );
}

#[test]
fn sonde_ohne_whisper_cpp_programm() {
    let mut s = einstellungen("whisper-cpp");
    s.ai_whisper_cpp_model = "/opt/modelle/ggml-large-v3.bin".into();
    let vorhanden = [PW_RECORD, "/opt/modelle/ggml-large-v3.bin"];
    assert_eq!(sonde(&s, &vorhanden), Err(Fehlend::Whisperprogramm(String::new())));
    s.ai_whisper_cpp_binary = "/gibt/es/nicht/whisper-cli".into();
    assert_eq!(
        sonde(&s, &vorhanden),
        Err(Fehlend::Whisperprogramm("/gibt/es/nicht/whisper-cli".into()))
    );
}

#[test]
fn sonde_ohne_ggml_modelldatei() {
    let mut s = einstellungen("whisper-cpp");
    s.ai_whisper_cpp_binary = "/opt/whisper.cpp/whisper-cli".into();
    let vorhanden = [PW_RECORD, "/opt/whisper.cpp/whisper-cli"];
    assert_eq!(sonde(&s, &vorhanden), Err(Fehlend::Modelldatei(String::new())));
    s.ai_whisper_cpp_model = "/gibt/es/nicht/ggml-large-v3.bin".into();
    assert_eq!(
        sonde(&s, &vorhanden),
        Err(Fehlend::Modelldatei("/gibt/es/nicht/ggml-large-v3.bin".into()))
    );
}

#[test]
fn sonde_ohne_schreibbares_laufzeitverzeichnis() {
    let ergebnis = verfuegbarkeit_mit(
        &einstellungen("openai-whisper"),
        &|_: &str| true,
        &|_: &str| true,
        &|_: &str| true,
        &|| false,
        LAUFZEIT,
    );
    assert!(matches!(ergebnis, Err(Fehlend::Laufzeitverzeichnis(_))));
}

#[test]
fn sonde_nimmt_das_echte_system() {
    // Whatever the machine has installed, the probe answers and does not
    // panic: every combination of probe answers is tried.
    for backend in ["openai-whisper", "whisper-cpp", "unbekannt"] {
        let mut s = Settings::default();
        s.ai_stt_backend = backend.into();
        s.ai_whisper_cpp_binary = "/usr/bin/whisper-cli".into();
        s.ai_whisper_cpp_model = "/tmp/ggml.bin".into();
        for maske in 0..16u32 {
            let _ = verfuegbarkeit_mit(
                &s,
                &|_: &str| maske & 1 != 0,
                &|_: &str| maske & 2 != 0,
                &|_: &str| maske & 4 != 0,
                &|| maske & 8 != 0,
                LAUFZEIT,
            );
        }
    }
}

#[test]
fn befunde_ergeben_das_urteil() {
    let alles = Befunde {
        pw_record: true,
        whisper_im_pfad: true,
        programm_ausfuehrbar: true,
        modell_ist_datei: true,
        laufzeit_schreibbar: false,
    };
    assert_eq!(
        verfuegbarkeit_aus(&einstellungen("openai-whisper"), &alles, LAUFZEIT),
        Err(Fehlend::Laufzeitverzeichnis(LAUFZEIT.into()))
    );
    assert_eq!(
        Fehlend::Whisperprogramm("whisper".into()).message(),
        "Diktat nicht möglich: Whisper-Programm „whisper“ nicht gefunden"
    );
}

#[test]
fn letzte_zeile_meldet_die_aussagekraeftige_zeile() {
    assert_eq!(letzte_zeile("Lade Modell\nerror: no such file\n\n"), "error: no such file");
    assert_eq!(letzte_zeile("   "), "keine Fehlerausgabe");
}

#[test]
fn transkripte_werden_normalisiert() {
    assert_eq!(
        openai_transkript(Some(format!(" {SATZ}\n"))).unwrap(),
        SATZ
    );
    assert_eq!(
        whisper_cpp_transkript(Some(vec![
            Some(" And so, my fellow Americans,".into()),
            None,
            Some(" ask not what your country can do for you,\n".into()),
            Some(" ask what you can do for your country.".into()),
        ]))
        .unwrap(),
        SATZ
    );
    assert!(matches!(openai_transkript(None), Err(TranskriptFehler::Ausgabe(_))));
    assert!(matches!(whisper_cpp_transkript(None), Err(TranskriptFehler::Ausgabe(_))));
    assert_eq!(openai_transkript(Some("  ".into())).unwrap(), "");
    assert_eq!(whisper_cpp_transkript(Some(vec![])).unwrap(), "");
    assert_eq!(normalisiere("a \n b\t c"), "a b c");
}

#[test]
fn backend_meldungen() {
    assert_eq!(
        backend_fehler("whisper", "exit status: 1", "Lade\nkaputt\n"),
        TranskriptFehler::Backend("whisper endete mit exit status: 1 — kaputt".into())
    );
    assert_eq!(nicht_leerer_text(String::new()), Err(TranskriptFehler::Leer));
    assert_eq!(nicht_leer("  ", "small"), "small");
    assert_eq!(nicht_leer(" base ", "small"), "base");
    let mut s = Settings::default();
    s.ai_whisper_cpp_binary = " /opt/w ".into();
    assert_eq!(programmname(SttBackend::WhisperCpp, &s), "/opt/w");
    assert_eq!(programmname(SttBackend::OpenAiWhisper, &s), "whisper");
}

fn zeile(k: &(String, Vec<String>)) -> String {
    let mut teile = vec![k.0.clone()];
    teile.extend(k.1.iter().cloned());
    teile.join(" ")
}

#[test]
fn kommando_openai_whisper() {
    let s = einstellungen("openai-whisper");
    let cmd = kommando(SttBackend::OpenAiWhisper, &s, "/run/vmn/diktat-1.wav");
    assert_eq!(
        zeile(&cmd),
        "whisper --model small --language de --output_format json \
         --output_dir /run/vmn /run/vmn/diktat-1.wav"
    );
}

#[test]
fn kommando_openai_whisper_faellt_auf_vorgabemodell_zurueck() {
    let mut s = einstellungen("openai-whisper");
    s.ai_whisper_model = "  ".into();
    let cmd = kommando(SttBackend::OpenAiWhisper, &s, "/run/vmn/diktat-1.wav");
    assert!(zeile(&cmd).contains("--model small"));
}

#[test]
fn kommando_whisper_cpp() {
    let mut s = einstellungen("whisper-cpp");
    s.ai_whisper_cpp_binary = "/opt/whisper.cpp/whisper-cli".into();
    s.ai_whisper_cpp_model = "/opt/whisper.cpp/ggml-large-v3.bin".into();
    let cmd = kommando(SttBackend::WhisperCpp, &s, "/run/vmn/diktat-1.wav");
    assert_eq!(
        zeile(&cmd),
        "/opt/whisper.cpp/whisper-cli -m /opt/whisper.cpp/ggml-large-v3.bin \
         -f /run/vmn/diktat-1.wav -l de --output-json -of /run/vmn/diktat-1 --no-prints"
    );
}

#[test]
fn transkript_pfad_passt_zum_kommando() {
    assert_eq!(transkript_pfad("/run/vmn/diktat-1.wav"), "/run/vmn/diktat-1.json");
}

#[test]
fn aufnahme_datei_und_kommando() {
    assert_eq!(aufnahme_name(4711, 3), "diktat-4711-3.wav");
    assert_eq!(
        zeile(&aufnahme_kommando("/run/vmn/diktat-4711-3.wav")),
        "pw-record --rate 16000 --channels 1 --format s16 /run/vmn/diktat-4711-3.wav"
    );
    let cmd = kommando(SttBackend::OpenAiWhisper, &einstellungen("openai-whisper"), "diktat.wav");
    assert_eq!(cmd.1[7], "");
}
