use literary_engine::character::{
    build_character_context, CharacterBible, CharacterProfile, RelationshipMemory,
    RelationshipProfile, VoiceProfile,
};

fn profile(name: &str, voice: &str, personality: &str) -> CharacterProfile {
    CharacterProfile {
        name: name.into(),
        voice_notes: voice.into(),
        personality_notes: personality.into(),
    }
}

#[test]
fn context_includes_voice_and_personality() {
    let context = build_character_context(&profile(
        "Magnus",
        "witty, theatrical, affectionate",
        "confident but emotionally guarded",
    ));

    assert!(context.contains("Voice: witty, theatrical, affectionate"));
    assert!(context.contains("Personality: confident but emotionally guarded"));
}

#[test]
fn context_omits_blank_notes() {
    let context = build_character_context(&profile("Mina", "  ", ""));
    assert_eq!(context, "Character: Mina");
}

#[test]
fn retrieves_only_characters_present_in_passage() {
    let mut bible = CharacterBible::new();
    bible.add(profile("Magnus", "witty", "warm"));
    bible.add(profile("Alec", "restrained", "loyal"));
    bible.add(profile("Jace", "sarcastic", "reckless"));

    let relevant = bible.relevant_to_text("Alec looked at Magnus and tried not to smile.");
    assert_eq!(relevant.len(), 2);
    assert_eq!(relevant[0].name, "Magnus");
    assert_eq!(relevant[1].name, "Alec");
}

#[test]
fn alias_matching_restores_character_voice_context() {
    let mut bible = CharacterBible::new();
    bible.add(profile("Alexander Lightwood", "restrained", "loyal"));
    bible.add_alias("Alexander Lightwood", "Alec");

    let relevant = bible.relevant_to_text("Alec lowered his eyes before answering.");
    assert_eq!(relevant.len(), 1);
    assert_eq!(relevant[0].name, "Alexander Lightwood");
}

#[test]
fn alias_matching_respects_word_boundaries() {
    let mut bible = CharacterBible::new();
    bible.add(profile("Al", "quiet", "observant"));

    assert!(bible.relevant_to_text("Alice crossed the room.").is_empty());
    assert_eq!(bible.relevant_to_text("Al crossed the room.").len(), 1);
}

#[test]
fn relationship_context_requires_both_characters() {
    let mut bible = CharacterBible::new();
    bible.add(profile("Magnus", "witty", "warm"));
    bible.add(profile("Alexander Lightwood", "restrained", "loyal"));
    bible.add_alias("Alexander Lightwood", "Alec");

    let mut relationship = RelationshipProfile::new("Magnus", "Alexander Lightwood");
    relationship.dynamic_notes = "playful teasing with underlying tenderness".into();
    relationship.address_notes = "Magnus often calls Alexander 'darling'".into();
    bible.add_relationship(relationship);

    assert!(bible
        .relevant_relationships("Magnus stood alone by the window.")
        .is_empty());

    let relationships = bible.relevant_relationships("Alec looked over at Magnus.");
    assert_eq!(relationships.len(), 1);
    assert!(relationships[0].dynamic_notes.contains("teasing"));
}

#[test]
fn context_orders_character_voice_before_relationship_dynamics() {
    let mut bible = CharacterBible::new();
    bible.add(profile("Magnus", "witty", "warm"));
    bible.add(profile("Alec", "restrained", "loyal"));

    let mut relationship = RelationshipProfile::new("Magnus", "Alec");
    relationship.dynamic_notes = "affectionate banter".into();
    bible.add_relationship(relationship);

    let context = bible.context_for_text("Magnus smiled at Alec.");
    let voice_position = context.find("Voice: witty").unwrap();
    let relationship_position = context.find("Relationship: Magnus ↔ Alec").unwrap();
    assert!(voice_position < relationship_position);
}

#[test]
fn duplicate_aliases_are_not_added_twice() {
    let mut bible = CharacterBible::new();
    bible.add_alias("Alexander Lightwood", "Alec");
    bible.add_alias("Alexander Lightwood", "Alec");
    assert_eq!(bible.aliases().len(), 1);
}

#[test]
fn aliases_differing_only_in_case_and_punctuation_collapse_and_blank_ones_are_ignored() {
    let mut bible = CharacterBible::new();
    bible.add_alias("Alexander Lightwood", "Alec");
    bible.add_alias("alexander  lightwood!", "ALEC");
    bible.add_alias("   ", "Alec");
    bible.add_alias("Magnus", "");
    assert_eq!(bible.aliases().len(), 1);
}

#[test]
fn relationship_context_lists_only_present_notes() {
    let mut relationship = RelationshipProfile::new("Magnus", "Alec");
    relationship.boundaries_notes = " never use first names ".into();
    assert_eq!(
        relationship.context(),
        "Relationship: Magnus ↔ Alec\nContinuity constraints: never use first names"
    );
}

#[test]
fn memory_and_voice_profiles_start_from_their_arguments() {
    let memory = RelationshipMemory::new("A", "B", "rivals");
    assert_eq!(memory.dynamic_notes, "rivals");
    let voice = VoiceProfile::new("Reza");
    assert_eq!(voice.character_name, "Reza");
    assert!(voice.vocabulary_notes.is_empty());
}
