use backend_rust::tts::{
    audio_is_usable, checked_plan_tts, cut_slug, digest_name, escape_single_quotes, plan_tts,
    remove_accents, safe_slug, slug_body_of, slug_from_marks, urlencoding_encode, voice_from_lowered,
    voice_of, TtsError, TtsParams, Voice,
};

fn params(text: Option<&str>, voice: Option<&str>) -> TtsParams {
    TtsParams {
        text: text.map(|t| t.to_string()),
        voice: voice.map(|v| v.to_string()),
        rate: None,
        pitch: None,
    }
}

#[test]
fn remove_accents_folds_vietnamese_vowels() {
    assert_eq!(remove_accents("Xin chào Việt Nam"), "Xin chao Viet Nam");
}

#[test]
fn remove_accents_lowers_only_the_folded_capitals() {
    assert_eq!(remove_accents("ĐÀ NẴNG"), "da NaNG");
    assert_eq!(remove_accents("Ưu Đãi Ỷ"), "uu dai y");
    assert_eq!(remove_accents("abc xyz 123"), "abc xyz 123");
}

#[test]
fn remove_accents_keeps_other_characters() {
    assert_eq!(remove_accents("日本 ñ ß"), "日本 ñ ß");
    assert_eq!(remove_accents(""), "");
}

#[test]
fn remove_accents_is_idempotent() {
    let once = remove_accents("Phở Bò Hà Nội");
    assert_eq!(remove_accents(&once), once);
}

#[test]
fn urlencoding_encode_escapes_reserved_bytes() {
    assert_eq!(urlencoding_encode("a b&c~"), "a%20b%26c~");
}

#[test]
fn urlencoding_encode_escapes_utf8_bytes_in_upper_hex() {
    assert_eq!(urlencoding_encode("Xin chào"), "Xin%20ch%C3%A0o");
    assert_eq!(urlencoding_encode("%"), "%25");
    assert_eq!(urlencoding_encode("AZaz09-_.~"), "AZaz09-_.~");
    assert_eq!(urlencoding_encode(""), "");
}

#[test]
fn slug_joins_words_with_single_underscores() {
    assert_eq!(slug_body_of("Xin chào, Việt Nam!"), "xin_chao_viet_nam");
    assert_eq!(slug_body_of("  --Hello   World--  "), "hello_world");
}

#[test]
fn slug_falls_back_when_nothing_is_left() {
    assert_eq!(slug_body_of("!!! ??"), "am_thanh");
    assert_eq!(slug_body_of(""), "am_thanh");
}

#[test]
fn slug_keeps_non_ascii_alphanumerics() {
    assert_eq!(slug_body_of("Ñandú 日本"), "Ñandu_日本");
}

#[test]
fn slug_is_cut_to_fifty_bytes() {
    let text = "a".repeat(60);
    assert_eq!(safe_slug(&text), "a".repeat(50));
    assert_eq!(cut_slug("short"), "short");
}

#[test]
fn voice_names_select_the_male_voice_only_without_female() {
    assert_eq!(voice_of("edge-vi-male"), Voice::Male);
    assert_eq!(voice_of("MALE"), Voice::Male);
    assert_eq!(voice_of("edge-vi-female"), Voice::Female);
    assert_eq!(voice_of("anything"), Voice::Female);
    assert_eq!(Voice::Male.suffix(), "nam");
    assert_eq!(Voice::Female.suffix(), "nu");
    assert_eq!(Voice::Male.edge_voice(), "vi-VN-NamMinhNeural");
    assert_eq!(Voice::Female.edge_voice(), "vi-VN-HoaiMyNeural");
}

#[test]
fn plan_refuses_missing_or_blank_text() {
    assert!(matches!(plan_tts(params(None, None)), Err(TtsError::MissingText)));
    assert!(matches!(plan_tts(params(Some(" \t\n"), None)), Err(TtsError::MissingText)));
}

#[test]
fn plan_describes_cache_names_and_fallbacks() {
    let plan = match plan_tts(params(Some("  Xin chào  "), None)) {
        Ok(p) => p,
        Err(_) => panic!("text was given"),
    };
    assert_eq!(plan.text, "Xin chào");
    assert_eq!(plan.voice, Voice::Female);
    assert_eq!(plan.file_name, "xin_chao_nu.mp3");
    assert_eq!(
        plan.candidates,
        vec![
            "xin_chao_nu.mp3".to_string(),
            "xin_chao_nu.mp3".to_string(),
            "xin_chao.mp3".to_string(),
            "tts_21e89413b7124aa48cfbb52018887110_nu.mp3".to_string(),
        ]
    );
    assert_eq!(plan.edge_voice, "vi-VN-HoaiMyNeural");
    assert_eq!(plan.rate, "+0%");
    assert_eq!(plan.pitch, "+0Hz");
    assert_eq!(
        plan.google_url,
        "https://translate.google.com/translate_tts?ie=UTF-8&q=Xin%20ch%C3%A0o&tl=vi&client=tw-ob"
    );
}

#[test]
fn plan_uses_the_requested_voice_rate_and_pitch() {
    let p = TtsParams {
        text: Some("xin chao".to_string()),
        voice: Some("edge-vi-male".to_string()),
        rate: Some("+10%".to_string()),
        pitch: Some("-5Hz".to_string()),
    };
    let plan = match plan_tts(p) {
        Ok(p) => p,
        Err(_) => panic!("text was given"),
    };
    assert_eq!(plan.voice, Voice::Male);
    assert_eq!(plan.file_name, "xin_chao_nam.mp3");
    assert_eq!(plan.candidates[3], "tts_cfebd75796347857ac9c061974d022b8_nam.mp3");
    assert_eq!(plan.edge_voice, "vi-VN-NamMinhNeural");
    assert_eq!(plan.rate, "+10%");
    assert_eq!(plan.pitch, "-5Hz");
}

#[test]
fn checked_plan_spots_a_cut_inside_a_character() {
    let text = format!("{}ñ", "a".repeat(49));
    assert!(checked_plan_tts(params(Some(&text), None)).is_none());
    let ascii = "b".repeat(70);
    assert!(matches!(checked_plan_tts(params(Some(&ascii), None)), Some(Ok(_))));
    assert!(matches!(checked_plan_tts(params(None, None)), Some(Err(TtsError::MissingText))));
}

#[test]
fn edge_script_escapes_single_quotes() {
    let plan = match plan_tts(params(Some("it's"), None)) {
        Ok(p) => p,
        Err(_) => panic!("text was given"),
    };
    assert_eq!(
        plan.edge_tts_script("/tmp/a.mp3"),
        "import edge_tts, asyncio; asyncio.run(edge_tts.Communicate('''it\\'s''', 'vi-VN-HoaiMyNeural', rate='+0%', pitch='+0Hz').save(r'/tmp/a.mp3'))"
    );
    assert_eq!(escape_single_quotes("a'b''"), "a\\'b\\'\\'");
}

#[test]
fn audio_needs_one_hundred_bytes() {
    assert!(!audio_is_usable(99));
    assert!(audio_is_usable(100));
    assert!(!audio_is_usable(0));
}

#[test]
fn marked_characters_build_the_raw_slug() {
    let chars: Vec<char> = "Ab, c!".chars().collect();
    let marks = vec![true, true, false, false, true, false];
    let raw: String = slug_from_marks(&chars, &marks).into_iter().collect();
    assert_eq!(raw, "ab_c_");
    let none: String = slug_from_marks(&chars, &vec![false; 6]).into_iter().collect();
    assert_eq!(none, "_");
}

#[test]
fn lowered_voice_names_select_by_words() {
    assert_eq!(voice_from_lowered("edge-vi-male"), Voice::Male);
    assert_eq!(voice_from_lowered("edge-vi-female"), Voice::Female);
    assert_eq!(voice_from_lowered("EDGE-VI-MALE"), Voice::Female);
    assert_eq!(voice_from_lowered(""), Voice::Female);
}

#[test]
fn digest_names_carry_hex_and_voice() {
    let digest: Vec<u8> = vec![0x00, 0x0f, 0xa0, 0xff];
    assert_eq!(digest_name(&digest, Voice::Male), "tts_000fa0ff_nam.mp3");
    assert_eq!(digest_name(&Vec::new(), Voice::Female), "tts__nu.mp3");
}

#[test]
fn url_encoding_joins_counts_and_keeps_plain_text() {
    let a = "Xin chào";
    let b = " 100%";
    let joined = format!("{}{}", a, b);
    assert_eq!(urlencoding_encode(&joined), format!("{}{}", urlencoding_encode(a), urlencoding_encode(b)));
    let reserved = a.bytes().filter(|c| !(c.is_ascii_alphanumeric() || b"-_.~".contains(c))).count();
    assert_eq!(urlencoding_encode(a).len(), a.len() + 2 * reserved);
    assert_eq!(urlencoding_encode("plain-text_1.0~"), "plain-text_1.0~");
    assert_ne!(urlencoding_encode("a b"), "a b");
}

#[test]
fn ascii_voice_names_are_lowered_before_choosing() {
    assert_eq!(voice_of("MALE"), Voice::Male);
    assert_eq!(voice_of("Edge-VI-Female"), Voice::Female);
}
