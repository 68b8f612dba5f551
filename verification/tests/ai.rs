use std::cell::RefCell;
use std::collections::VecDeque;

use chrono::TimeZone;
use vergissmeinnicht::ai::{
    complete_json_mit, effective_api_key, endpoint, extract_json_object, models_reply, reply_content,
    status_error, strip_code_fences, trim_slashes, with_json_instruction, AiError, CannedLlm,
    ChatMessage, Generationen, JSON_INSTRUCTION, JSON_RETRY_REMINDER,
};
use vergissmeinnicht::prompts::{
    aufgaben_block, capture_nachrichten, wochentag_deutsch, Kontextstufe, Zeitpunkt,
};
use vergissmeinnicht::task::{TaskInfo, TaskStatus};
use vergissmeinnicht::types::{AiDraft, AntwortFelder, TagsFeld};

// ─── Messages ───────────────────────────────────────────────────────────────

#[test]
fn json_instruction_ergaenzt_vorhandene_system_nachricht() {
    let eingabe = vec![
        ChatMessage::system("Du bist ein Task-Parser."),
        ChatMessage::user("Milch kaufen morgen"),
    ];
    let effektiv = with_json_instruction(&eingabe);
    assert_eq!(effektiv.len(), 2);
    assert_eq!(effektiv[0].role, "system");
    assert!(effektiv[0].content.starts_with("Du bist ein Task-Parser."));
    assert!(effektiv[0].content.contains(JSON_INSTRUCTION));
    assert_eq!(eingabe[0].content, "Du bist ein Task-Parser.");
}

#[test]
fn json_instruction_stellt_system_nachricht_voran_wenn_keine_da() {
    let effektiv = with_json_instruction(&[ChatMessage::user("Milch kaufen")]);
    assert_eq!(effektiv.len(), 2);
    assert_eq!(effektiv[0], ChatMessage::system(JSON_INSTRUCTION));
    assert_eq!(effektiv[1].content, "Milch kaufen");
}

#[test]
fn json_instruction_folgt_nach_leerzeile() {
    let effektiv = with_json_instruction(&[ChatMessage::system("A")]);
    assert_eq!(effektiv.len(), 1);
    assert_eq!(effektiv[0].content, format!("A\n\n{JSON_INSTRUCTION}"));
}

// ─── JSON answers ───────────────────────────────────────────────────────────

#[test]
fn extract_json_akzeptiert_objekt() {
    let v = extract_json_object(r#"{"title": "Milch kaufen", "due": "morgen"}"#).unwrap();
    assert_eq!(v["title"], "Milch kaufen");
}

#[test]
fn extract_json_lehnt_kaputtes_json_ab() {
    let err = extract_json_object(r#"{"title": "Milch"#).unwrap_err();
    assert!(matches!(err, AiError::InvalidJson(_)));
}

#[test]
fn extract_json_lehnt_nicht_objekte_ab() {
    assert!(matches!(
        extract_json_object(r#"["a", "b"]"#),
        Err(AiError::InvalidJson(_))
    ));
    assert!(matches!(
        extract_json_object("Hier ist dein Task!"),
        Err(AiError::InvalidJson(_))
    ));
}

#[test]
fn extract_json_entfernt_markdown_zaeune() {
    let text = "```json\n{\"title\": \"Milch kaufen\"}\n```";
    let v = extract_json_object(text).unwrap();
    assert_eq!(v["title"], "Milch kaufen");
    let v = extract_json_object("```\n{\"a\": 1}\n```").unwrap();
    assert_eq!(v["a"], 1);
}

#[test]
fn code_fences_and_error_excerpt() {
    assert_eq!(strip_code_fences("  ```json\n{}\n```  "), "{}");
    assert_eq!(strip_code_fences(" {\"a\": 1} "), "{\"a\": 1}");
    let lang = "x".repeat(300);
    match extract_json_object(&lang) {
        Err(AiError::InvalidJson(m)) => assert_eq!(m.chars().count(), 201),
        _ => panic!("no JSON"),
    }
}

fn chat_mock(
    antworten: Vec<Result<String, AiError>>,
) -> (
    RefCell<VecDeque<Result<String, AiError>>>,
    RefCell<Vec<Vec<ChatMessage>>>,
) {
    (RefCell::new(VecDeque::from(antworten)), RefCell::new(Vec::new()))
}

#[test]
fn complete_json_ohne_retry_bei_gueltiger_antwort() {
    let (antworten, aufrufe) = chat_mock(vec![Ok(r#"{"title": "Milch"}"#.into())]);
    let chat = |m: &[ChatMessage]| {
        aufrufe.borrow_mut().push(m.to_vec());
        antworten.borrow_mut().pop_front().expect("more calls than answers")
    };
    let v = complete_json_mit(&chat, &[ChatMessage::user("Milch")]).unwrap();
    assert_eq!(v["title"], "Milch");
    assert_eq!(aufrufe.borrow().len(), 1);
}

#[test]
fn complete_json_retry_mit_format_erinnerung() {
    let (antworten, aufrufe) = chat_mock(vec![
        Ok("Klar! Hier ist dein Task als JSON: {…}".into()),
        Ok(r#"{"title": "Milch"}"#.into()),
    ]);
    let chat = |m: &[ChatMessage]| {
        aufrufe.borrow_mut().push(m.to_vec());
        antworten.borrow_mut().pop_front().expect("more calls than answers")
    };
    let v = complete_json_mit(&chat, &[ChatMessage::user("Milch")]).unwrap();
    assert_eq!(v["title"], "Milch");

    let aufrufe = aufrufe.borrow();
    assert_eq!(aufrufe.len(), 2);
    let retry = &aufrufe[1];
    assert_eq!(retry[retry.len() - 2].role, "assistant");
    assert!(retry[retry.len() - 2].content.contains("Klar!"));
    assert_eq!(retry.last().unwrap(), &ChatMessage::user(JSON_RETRY_REMINDER));
}

#[test]
fn complete_json_fehler_nach_zweiter_kaputter_antwort() {
    let (antworten, aufrufe) = chat_mock(vec![
        Ok("kein json".into()),
        Ok("immer noch kein json".into()),
    ]);
    let chat = |m: &[ChatMessage]| {
        aufrufe.borrow_mut().push(m.to_vec());
        antworten.borrow_mut().pop_front().expect("more calls than answers")
    };
    let err = complete_json_mit(&chat, &[ChatMessage::user("Milch")]).unwrap_err();
    assert!(matches!(err, AiError::InvalidJson(_)));
    assert_eq!(aufrufe.borrow().len(), 2);
}

#[test]
fn complete_json_kein_retry_bei_transportfehler() {
    let (antworten, aufrufe) =
        chat_mock(vec![Err(AiError::Network("connection refused".into()))]);
    let chat = |m: &[ChatMessage]| {
        aufrufe.borrow_mut().push(m.to_vec());
        antworten.borrow_mut().pop_front().expect("more calls than answers")
    };
    let err = complete_json_mit(&chat, &[ChatMessage::user("Milch")]).unwrap_err();
    assert!(matches!(err, AiError::Network(_)));
    assert_eq!(aufrufe.borrow().len(), 1);
}

// ─── Replies ────────────────────────────────────────────────────────────────

#[test]
fn reply_error_object_and_missing_content() {
    assert_eq!(
        reply_content(Some("Rate limit exceeded".into()), Some("x".into())),
        Err(AiError::Api("Rate limit exceeded".into()))
    );
    assert_eq!(
        reply_content(None, Some(String::new())),
        Err(AiError::Api("Antwort ohne Inhalt".into()))
    );
    assert_eq!(
        reply_content(None, Some("{\"title\": \"Milch kaufen\"}".into())),
        Ok("{\"title\": \"Milch kaufen\"}".to_string())
    );
    assert_eq!(
        models_reply(None, vec!["granite4.1:8b".into()]),
        Ok(vec!["granite4.1:8b".to_string()])
    );
    assert_eq!(
        status_error("500", "{\"error\": {\"message\": \"kaputt\"}}"),
        AiError::Api("HTTP 500: {\"error\": {\"message\": \"kaputt\"}}".into())
    );
}

#[test]
fn base_url_and_key_normalisation() {
    assert_eq!(trim_slashes("http://localhost:11434/v1/"), "http://localhost:11434/v1");
    assert_eq!(trim_slashes("http://localhost:11434/v1"), "http://localhost:11434/v1");
    assert_eq!(effective_api_key(Some(String::new())), None);
    assert_eq!(effective_api_key(Some("k".into())), Some("k".to_string()));
    assert_eq!(
        AiError::Network("connection refused".into()).message(),
        "Netzwerkfehler: connection refused"
    );
}

// ─── Generations and canned answers ─────────────────────────────────────────

#[test]
fn generationen_juengste_gewinnt() {
    let mut g = Generationen::default();
    let erste = g.naechste();
    assert!(g.ist_aktuell(erste));
    let zweite = g.naechste();
    assert!(!g.ist_aktuell(erste));
    assert!(g.ist_aktuell(zweite));
    g.verwerfen();
    assert!(!g.ist_aktuell(zweite));
}

#[test]
fn chat_serviert_in_reihenfolge_letzte_wiederholt_sich() {
    let mut mock = CannedLlm::new(
        vec![("erste".into(), None), ("zweite".into(), None)],
        0,
    )
    .unwrap();
    assert_eq!(mock.serve().0, "erste");
    assert_eq!(mock.serve().0, "zweite");
    assert_eq!(mock.serve().0, "zweite");
    assert_eq!(mock.serve().0, "zweite");
}

#[test]
fn list_models_liefert_mock_modell() {
    let mock = CannedLlm::new(vec![("x".into(), None)], 0).unwrap();
    assert_eq!(mock.list_models(), vec!["vmn-mock".to_string()]);
}

#[test]
fn canned_delays_and_empty_list() {
    let mut mock = CannedLlm::new(
        vec![("langsam".into(), Some(400)), ("schnell".into(), None)],
        120,
    )
    .unwrap();
    assert_eq!(mock.serve(), ("langsam".to_string(), 400));
    assert_eq!(mock.serve(), ("schnell".to_string(), 120));
    assert!(matches!(CannedLlm::new(vec![], 0), Err(AiError::Config(_))));
}

// ─── Capture prompt ─────────────────────────────────────────────────────────

fn jetzt_fest() -> Zeitpunkt {
    Zeitpunkt {
        wochentag: 2,
        datum: "2026-08-05".into(),
        stunde: 21,
        minute: 40,
    }
}

fn aufgabe(titel: &str, status: TaskStatus) -> TaskInfo {
    TaskInfo {
        uuid: titel.into(),
        description: titel.into(),
        project: None,
        tags: vec![],
        due: None,
        status,
        entry: None,
        working_set_id: None,
        priority: None,
        annotations: vec![],
        wait: None,
        recur: None,
        scheduled: None,
        depends: vec![],
        is_blocked: false,
        is_blocking: false,
        is_recurring_child: false,
        start: None,
        until: None,
        modified: None,
        udas: vec![],
    }
}

fn bestand() -> Vec<TaskInfo> {
    vec![
        aufgabe("Offene Aufgabe Eins", TaskStatus::Pending),
        aufgabe("Erledigte Aufgabe Zwei", TaskStatus::Completed),
        aufgabe("Gelöschte Aufgabe Drei", TaskStatus::Deleted),
        aufgabe("Wiederkehrende Aufgabe Vier", TaskStatus::Recurring),
    ]
}

fn system_prompt(stufe: Kontextstufe, aufgaben: &[TaskInfo]) -> String {
    capture_nachrichten("x", &jetzt_fest(), &vec![], &vec![], stufe, aufgaben)[0]
        .content
        .clone()
}

#[test]
fn capture_prompt_traegt_schema_datum_und_eingabe() {
    let nachrichten = capture_nachrichten(
        "Zahnarzt nächste Woche Dienstag, wichtig",
        &jetzt_fest(),
        &vec![],
        &vec![],
        Kontextstufe::Taxonomie,
        &[],
    );
    assert_eq!(nachrichten.len(), 2);
    assert_eq!(nachrichten[0].role, "system");
    for feld in ["title", "project", "tags", "due", "priority", "recur", "notes"] {
        assert!(nachrichten[0].content.contains(feld), "Schema-Feld {feld} fehlt");
    }
    assert!(nachrichten[0].content.contains("Mittwoch, 2026-08-05, 21:40 Uhr"));
    assert_eq!(nachrichten[1].role, "user");
    assert_eq!(nachrichten[1].content, "Zahnarzt nächste Woche Dienstag, wichtig");
}

#[test]
fn capture_prompt_traegt_taxonomie_und_erlaubt_neue_projekte() {
    let projekte = vec!["Büro".to_string(), "Garten.Beet".to_string()];
    let tags = vec!["dringend".to_string(), "arzt".to_string()];
    let nachrichten = capture_nachrichten(
        "x",
        &jetzt_fest(),
        &projekte,
        &tags,
        Kontextstufe::Taxonomie,
        &[],
    );
    let system = &nachrichten[0].content;
    assert!(system.contains("Vorhandene Projekte: Büro, Garten.Beet."));
    assert!(system.contains("Vorhandene Schlagworte: dringend, arzt."));
    assert!(system.contains("neuer Name ist erlaubt"));
}

#[test]
fn capture_prompt_benennt_leere_taxonomie() {
    let nachrichten =
        capture_nachrichten("x", &jetzt_fest(), &vec![], &vec![], Kontextstufe::Taxonomie, &[]);
    assert!(nachrichten[0].content.contains("Vorhandene Projekte: (keine)."));
    assert!(nachrichten[0].content.contains("Vorhandene Schlagworte: (keine)."));
}

#[test]
fn stufe_aus_config_mit_rueckfall() {
    assert_eq!(Kontextstufe::aus_config("taxonomy"), Kontextstufe::Taxonomie);
    assert_eq!(Kontextstufe::aus_config("open_titles"), Kontextstufe::OffeneTitel);
    assert_eq!(Kontextstufe::aus_config("all"), Kontextstufe::Alle);
    assert_eq!(Kontextstufe::aus_config("unbekannt"), Kontextstufe::Taxonomie);
    assert_eq!(Kontextstufe::aus_config(""), Kontextstufe::Taxonomie);
}

#[test]
fn stufe_taxonomie_traegt_keine_aufgabentitel() {
    let system = system_prompt(Kontextstufe::Taxonomie, &bestand());
    assert!(!system.contains("Offene Aufgabe Eins"));
    assert!(!system.contains("Erledigte Aufgabe Zwei"));
    assert!(!system.contains("Offene Aufgaben"));
    assert!(!system.contains("Alle Aufgaben"));
}

#[test]
fn stufe_offene_titel_traegt_nur_pending_titel() {
    let system = system_prompt(Kontextstufe::OffeneTitel, &bestand());
    assert!(system.contains("Offene Aufgaben (Titel):"));
    assert!(system.contains("- Offene Aufgabe Eins"));
    assert!(!system.contains("Erledigte Aufgabe Zwei"));
    assert!(!system.contains("Gelöschte Aufgabe Drei"));
    assert!(!system.contains("Wiederkehrende Aufgabe Vier"));
}

#[test]
fn stufe_alle_traegt_alles_ausser_geloeschtem_kompakt() {
    let mut erledigt = aufgabe("Erledigte Aufgabe Zwei", TaskStatus::Completed);
    erledigt.project = Some("Garten".into());
    erledigt.tags = vec!["beet".into()];
    erledigt.due = Some(
        chrono::Local
            .with_ymd_and_hms(2026, 8, 1, 12, 0, 0)
            .unwrap()
            .timestamp(),
    );
    let aufgaben = vec![
        aufgabe("Offene Aufgabe Eins", TaskStatus::Pending),
        erledigt,
        aufgabe("Gelöschte Aufgabe Drei", TaskStatus::Deleted),
        aufgabe("Wiederkehrende Aufgabe Vier", TaskStatus::Recurring),
    ];
    let system = system_prompt(Kontextstufe::Alle, &aufgaben);
    assert!(system.contains("Alle Aufgaben (kompakt):"));
    assert!(system.contains("- [offen] Offene Aufgabe Eins"));
    assert!(system.contains(
        "- [erledigt] Erledigte Aufgabe Zwei (Projekt: Garten; Schlagworte: beet; fällig: 2026-08-01)"
    ));
    assert!(system.contains("- [wiederkehrend] Wiederkehrende Aufgabe Vier"));
    assert!(!system.contains("Gelöschte Aufgabe Drei"));
}

#[test]
fn geloeschte_aufgaben_erreichen_keine_stufe() {
    for stufe in [Kontextstufe::Taxonomie, Kontextstufe::OffeneTitel, Kontextstufe::Alle] {
        let system = system_prompt(stufe, &bestand());
        assert!(
            !system.contains("Gelöschte Aufgabe Drei"),
            "Gelöschtes in Stufe {stufe:?}"
        );
    }
}

#[test]
fn datum_steht_nach_der_aufgabenliste() {
    for stufe in [Kontextstufe::Taxonomie, Kontextstufe::OffeneTitel, Kontextstufe::Alle] {
        let system = system_prompt(stufe, &bestand());
        let datum = system.find("Aktuelles Datum:").expect("Datumszeile fehlt");
        let taxonomie = system.find("Vorhandene Schlagworte:").unwrap();
        assert!(datum > taxonomie, "Datum vor der Taxonomie (Stufe {stufe:?})");
        if let Some(liste) = system.find("Aufgaben") {
            assert!(datum > liste, "Datum vor der Aufgabenliste (Stufe {stufe:?})");
        }
        assert!(system.trim_end().ends_with("Uhr."), "Datum nicht am Ende");
    }
}

#[test]
fn deckel_wirft_aelteste_erledigte_und_behaelt_offene() {
    let mut alt = aufgabe("Uralte erledigte Aufgabe", TaskStatus::Completed);
    alt.modified = Some(1_000);
    let mut mittel = aufgabe("Mittlere erledigte Aufgabe", TaskStatus::Completed);
    mittel.modified = Some(2_000);
    let mut neu = aufgabe("Frische erledigte Aufgabe", TaskStatus::Completed);
    neu.modified = Some(3_000);
    let aufgaben = vec![
        aufgabe("Offene Aufgabe bleibt", TaskStatus::Pending),
        alt,
        mittel,
        neu,
    ];
    let block = aufgaben_block(Kontextstufe::Alle, &aufgaben, 80).unwrap();
    assert!(block.contains("Offene Aufgabe bleibt"));
    assert!(block.contains("Frische erledigte Aufgabe"));
    assert!(!block.contains("Mittlere erledigte Aufgabe"));
    assert!(!block.contains("Uralte erledigte Aufgabe"));
    assert!(block.contains("gekürzt"));

    let voll = aufgaben_block(Kontextstufe::Alle, &aufgaben, 10_000).unwrap();
    assert!(voll.contains("Uralte erledigte Aufgabe"));
    assert!(!voll.contains("gekürzt"));

    let winzig = aufgaben_block(Kontextstufe::Alle, &aufgaben, 1).unwrap();
    assert!(winzig.contains("Offene Aufgabe bleibt"));
    assert!(!winzig.contains("erledigte Aufgabe"));
    assert!(winzig.contains("gekürzt"));
}

#[test]
fn wochentage_auf_deutsch() {
    assert_eq!(wochentag_deutsch(0), "Montag");
    assert_eq!(wochentag_deutsch(6), "Sonntag");
    assert!(aufgaben_block(Kontextstufe::Taxonomie, &bestand(), 10).is_none());
    assert_eq!(
        aufgaben_block(Kontextstufe::OffeneTitel, &bestand(), 10).unwrap(),
        "Offene Aufgaben (Titel):\n- Offene Aufgabe Eins"
    );
}

// ─── Drafts ─────────────────────────────────────────────────────────────────

const DRAFT_NOW: i64 = 1_800_000_000;

fn felder() -> AntwortFelder {
    AntwortFelder {
        title: None,
        project: None,
        tags: TagsFeld::Fehlt,
        due: None,
        priority: None,
        recur: None,
        notes: None,
    }
}

#[test]
fn uebernimmt_gueltige_werte() {
    let mut f = felder();
    f.title = Some(" Zahnarzttermin vereinbaren ".into());
    f.project = Some("Gesundheit".into());
    f.tags = TagsFeld::Liste(vec![Some("arzt".into()), Some("+telefon".into())]);
    f.due = Some("tomorrow".into());
    f.priority = Some("h".into());
    f.recur = Some("QUARTERLY".into());
    f.notes = Some("Vormittags anrufen".into());
    let draft = AiDraft::aus_feldern(&f, DRAFT_NOW);
    assert_eq!(draft.title, "Zahnarzttermin vereinbaren");
    assert_eq!(draft.project, "Gesundheit");
    assert_eq!(draft.tags, vec!["arzt", "telefon"]);
    assert_eq!(draft.due, "tomorrow");
    assert_eq!(draft.priority, "H");
    assert_eq!(draft.recur, "quarterly");
    assert_eq!(draft.notes, "Vormittags anrufen");
}

#[test]
fn ungueltige_werte_lassen_felder_leer() {
    let mut f = felder();
    f.title = Some("Kaputte Metadaten".into());
    f.due = Some("übermorgen vielleicht".into());
    f.priority = Some("urgent".into());
    f.recur = Some("alle Jubeljahre".into());
    let draft = AiDraft::aus_feldern(&f, DRAFT_NOW);
    assert_eq!(draft.title, "Kaputte Metadaten");
    assert_eq!(draft.due, "");
    assert_eq!(draft.priority, "");
    assert_eq!(draft.recur, "");
}

#[test]
fn gueltige_due_formen_bleiben_erhalten() {
    for token in ["today", "+3d", "2027-01-15", "friday", "eow"] {
        let mut f = felder();
        f.due = Some(token.into());
        assert_eq!(AiDraft::aus_feldern(&f, DRAFT_NOW).due, token, "{token}");
    }
}

#[test]
fn fehlende_und_falsch_typisierte_felder_sind_leer() {
    let mut f = felder();
    f.tags = TagsFeld::Liste(vec![None, Some("echt".into()), None]);
    let draft = AiDraft::aus_feldern(&f, DRAFT_NOW);
    assert_eq!(draft.title, "");
    assert_eq!(draft.project, "");
    assert_eq!(draft.tags, vec!["echt"]);
    assert_eq!(draft.due, "");
    assert_eq!(draft.notes, "");
}

#[test]
fn tags_als_string_werden_gesplittet() {
    let mut f = felder();
    f.tags = TagsFeld::Text("arzt  #telefon +dringend".into());
    assert_eq!(
        AiDraft::aus_feldern(&f, DRAFT_NOW).tags,
        vec!["arzt", "telefon", "dringend"]
    );
}

#[test]
fn leerer_entwurf_ist_die_vorgabe() {
    let d = AiDraft::default();
    assert_eq!(d.title, "");
    assert!(d.tags.is_empty());
    assert_eq!(d.recur, "");
}

#[test]
fn base_url_mit_und_ohne_schlussstrich() {
    let mit = trim_slashes("http://localhost:11434/v1/");
    let ohne = trim_slashes("http://localhost:11434/v1");
    assert_eq!(endpoint(&mit, "/models"), "http://localhost:11434/v1/models");
    assert_eq!(endpoint(&ohne, "/models"), "http://localhost:11434/v1/models");
}

#[test]
fn leerer_api_key_wird_wie_kein_key_behandelt() {
    assert_eq!(effective_api_key(Some(String::new())), None);
}

#[test]
fn extracted_object_is_the_parsed_answer() {
    let v = extract_json_object("```json\n{\"title\": \"Milch\", \"n\": 2}\n```").unwrap();
    let expected: serde_json::Value =
        serde_json::from_str("{\"title\": \"Milch\", \"n\": 2}").unwrap();
    assert_eq!(v, expected);
}
