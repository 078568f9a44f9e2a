//! Character bible: profiles, aliases and relationships, and the context that a
//! passage retrieves from them.

use vstd::prelude::*;
use crate::text::{
    chars_of, contains, contains_exec, extend_all, extend_str, is_blank, join, join_exec,
    lemma_char_vec_deep, string_of, trim, trim_vec, vec_eq,
};
use crate::norm::{matching_form, normalize_for_matching};

verus! {

#[derive(Debug, Clone, PartialEq, Eq)]
pub struct CharacterProfile {
    pub name: String,
    pub voice_notes: String,
    pub personality_notes: String,
}

#[derive(Debug, Clone, PartialEq, Eq)]
pub struct RelationshipProfile {
    pub character_a: String,
    pub character_b: String,
    pub dynamic_notes: String,
    pub address_notes: String,
    pub boundaries_notes: String,
}

#[derive(Debug, Clone, PartialEq, Eq)]
pub struct CharacterAlias {
    pub canonical_name: String,
    pub alias: String,
}

/// A labelled line for a note, or nothing when the note is blank.
pub open spec fn note_part(label: Seq<char>, notes: Seq<char>) -> Seq<Seq<char>> {
    if is_blank(notes) {
        seq![]
    } else {
        seq![label + trim(notes)]
    }
}

/// The context block of one character.
pub open spec fn character_context(p: CharacterProfile) -> Seq<char> {
    join(
        seq!["Character: "@ + p.name@] + note_part("Voice: "@, p.voice_notes@) + note_part(
            "Personality: "@,
            p.personality_notes@,
        ),
        "\n"@,
    )
}

/// The context block of one relationship.
pub open spec fn relationship_context(r: RelationshipProfile) -> Seq<char> {
    join(
        seq!["Relationship: "@ + r.character_a@ + " ↔ "@ + r.character_b@] + note_part(
            "Dynamic: "@,
            r.dynamic_notes@,
        ) + note_part("Forms of address: "@, r.address_notes@) + note_part(
            "Continuity constraints: "@,
            r.boundaries_notes@,
        ),
        "\n"@,
    )
}

/// Appends the labelled note line, when the note is not blank.
fn push_note(parts: &mut Vec<Vec<char>>, label: &str, notes: &str)
    ensures
        final(parts).deep_view() == old(parts).deep_view() + note_part(label@, notes@),
{
    let n = chars_of(notes);
    let t = trim_vec(&n);
    if t.len() == 0 {
        assert(old(parts).deep_view() + note_part(label@, notes@) =~= old(parts).deep_view());
    } else {
        let mut line = chars_of(label);
        extend_all(&mut line, &t);
        let ghost before = parts.deep_view();
        proof {
            lemma_char_vec_deep(&line);
        }
        parts.push(line);
        assert(parts.deep_view() =~= before + note_part(label@, notes@));
    }
}

/// Renders a character's name, voice and personality as prompt context.
pub fn build_character_context(profile: &CharacterProfile) -> (r: String)
    ensures
        r@ == character_context(*profile),
{
    let mut head = chars_of("Character: ");
    extend_str(&mut head, profile.name.as_str());
    let mut parts: Vec<Vec<char>> = Vec::new();
    proof {
        lemma_char_vec_deep(&head);
    }
    parts.push(head);
    assert(parts.deep_view() =~= seq!["Character: "@ + profile.name@]);
    push_note(&mut parts, "Voice: ", profile.voice_notes.as_str());
    push_note(&mut parts, "Personality: ", profile.personality_notes.as_str());
    let sep = chars_of("\n");
    let out = join_exec(&parts, &sep);
    string_of(&out)
}

impl RelationshipProfile {
    /// A relationship between two characters with no notes yet.
    pub fn new(character_a: &str, character_b: &str) -> (r: RelationshipProfile)
        ensures
            r.character_a@ == character_a@,
            r.character_b@ == character_b@,
            r.dynamic_notes@ == Seq::<char>::empty(),
            r.address_notes@ == Seq::<char>::empty(),
            r.boundaries_notes@ == Seq::<char>::empty(),
    {
        RelationshipProfile {
            character_a: character_a.to_owned(),
            character_b: character_b.to_owned(),
            dynamic_notes: String::new(),
            address_notes: String::new(),
            boundaries_notes: String::new(),
        }
    }

    /// Renders the relationship, its dynamic, forms of address and continuity
    /// constraints as prompt context.
    pub fn context(&self) -> (r: String)
        ensures
            r@ == relationship_context(*self),
    {
        let mut head = chars_of("Relationship: ");
        extend_str(&mut head, self.character_a.as_str());
        extend_str(&mut head, " ↔ ");
        extend_str(&mut head, self.character_b.as_str());
        let mut parts: Vec<Vec<char>> = Vec::new();
        proof {
            lemma_char_vec_deep(&head);
        }
        parts.push(head);
        assert(parts.deep_view() =~= seq![
            "Relationship: "@ + self.character_a@ + " ↔ "@ + self.character_b@,
        ]);
        push_note(&mut parts, "Dynamic: ", self.dynamic_notes.as_str());
        push_note(&mut parts, "Forms of address: ", self.address_notes.as_str());
        push_note(&mut parts, "Continuity constraints: ", self.boundaries_notes.as_str());
        let sep = chars_of("\n");
        let out = join_exec(&parts, &sep);
        string_of(&out)
    }
}

/// `s` with one space on each side.
pub open spec fn padded(s: Seq<char>) -> Seq<char> {
    seq![' '] + s + seq![' ']
}

/// The name, once normalized, is not empty and occurs in the normalized text
/// as whole words.
pub open spec fn name_in(normalized_text: Seq<char>, name: Seq<char>) -> bool {
    let n = matching_form(name);
    n.len() > 0 && contains(padded(normalized_text), padded(n))
}

/// A registered alias of the character occurs in the normalized text.
pub open spec fn alias_hits(a: CharacterAlias, normalized_text: Seq<char>, canonical: Seq<char>) -> bool {
    matching_form(a.canonical_name@) == matching_form(canonical) && name_in(
        normalized_text,
        a.alias@,
    )
}

/// The character appears in the normalized text under its name or one of its
/// aliases.
pub open spec fn character_present(
    aliases: Seq<CharacterAlias>,
    normalized_text: Seq<char>,
    canonical: Seq<char>,
) -> bool {
    name_in(normalized_text, canonical) || exists|k: int|
        0 <= k < aliases.len() && #[trigger] alias_hits(aliases[k], normalized_text, canonical)
}

/// An alias already registered under the same normalized names.
pub open spec fn alias_known(aliases: Seq<CharacterAlias>, canonical: Seq<char>, alias: Seq<char>) -> bool {
    exists|k: int|
        0 <= k < aliases.len() && matching_form(#[trigger] aliases[k].canonical_name@)
            == matching_form(canonical) && matching_form(aliases[k].alias@) == matching_form(alias)
}

/// Whether the name occurs, as whole words, in the already normalized text.
fn contains_name(normalized_text: &Vec<char>, name: &str) -> (r: bool)
    ensures
        r == name_in(normalized_text@, name@),
{
    let n = normalize_for_matching(name);
    if n.len() == 0 {
        return false;
    }
    let mut hay: Vec<char> = vec![' '];
    extend_all(&mut hay, normalized_text);
    hay.push(' ');
    let mut needle: Vec<char> = vec![' '];
    extend_all(&mut needle, &n);
    needle.push(' ');
    assert(hay@ =~= padded(normalized_text@));
    assert(needle@ =~= padded(n@));
    contains_exec(&hay, &needle)
}

pub struct CharacterBible {
    profiles: Vec<CharacterProfile>,
    aliases: Vec<CharacterAlias>,
    relationships: Vec<RelationshipProfile>,
}

impl CharacterBible {
    /// The profiles, in the order they were added.
    pub closed spec fn profile_seq(&self) -> Seq<CharacterProfile> {
        self.profiles@
    }

    /// The registered aliases, in the order they were added.
    pub closed spec fn alias_seq(&self) -> Seq<CharacterAlias> {
        self.aliases@
    }

    /// The relationships, in the order they were added.
    pub closed spec fn relationship_seq(&self) -> Seq<RelationshipProfile> {
        self.relationships@
    }

    /// The profiles of the characters present in the text, in bible order.
    pub open spec fn present_profiles(&self, text: Seq<char>) -> Seq<CharacterProfile> {
        let nt = matching_form(text);
        let aliases = self.alias_seq();
        self.profile_seq().filter(|p: CharacterProfile| character_present(aliases, nt, p.name@))
    }

    /// The relationships whose two characters are both present in the text.
    pub open spec fn present_relationships(&self, text: Seq<char>) -> Seq<RelationshipProfile> {
        let nt = matching_form(text);
        let aliases = self.alias_seq();
        self.relationship_seq().filter(
            |r: RelationshipProfile|
                character_present(aliases, nt, r.character_a@) && character_present(
                    aliases,
                    nt,
                    r.character_b@,
                ),
        )
    }

    /// The context a passage retrieves: character blocks first, then
    /// relationship blocks, separated by blank lines.
    pub open spec fn text_context(&self, text: Seq<char>) -> Seq<char> {
        join(
            self.present_profiles(text).map_values(|p: CharacterProfile| character_context(p))
                + self.present_relationships(text).map_values(
                |r: RelationshipProfile| relationship_context(r),
            ),
            "\n\n"@,
        )
    }

    pub fn new() -> (b: CharacterBible)
        ensures
            b.profile_seq() == Seq::<CharacterProfile>::empty(),
            b.alias_seq() == Seq::<CharacterAlias>::empty(),
            b.relationship_seq() == Seq::<RelationshipProfile>::empty(),
    {
        CharacterBible { profiles: Vec::new(), aliases: Vec::new(), relationships: Vec::new() }
    }

    pub fn add(&mut self, profile: CharacterProfile)
        ensures
            final(self).profile_seq() == old(self).profile_seq().push(profile),
            final(self).alias_seq() == old(self).alias_seq(),
            final(self).relationship_seq() == old(self).relationship_seq(),
    {
        self.profiles.push(profile);
    }

    /// Registers an alias of a character. Blank names are ignored, and so is an
    /// alias already registered under the same normalized names.
    pub fn add_alias(&mut self, canonical_name: &str, alias: &str)
        ensures
            final(self).profile_seq() == old(self).profile_seq(),
            final(self).relationship_seq() == old(self).relationship_seq(),
            (is_blank(canonical_name@) || is_blank(alias@) || alias_known(
                old(self).alias_seq(),
                canonical_name@,
                alias@,
            )) ==> final(self).alias_seq() == old(self).alias_seq(),
            !(is_blank(canonical_name@) || is_blank(alias@) || alias_known(
                old(self).alias_seq(),
                canonical_name@,
                alias@,
            )) ==> {
                &&& final(self).alias_seq().len() == old(self).alias_seq().len() + 1
                &&& final(self).alias_seq().drop_last() == old(self).alias_seq()
                &&& final(self).alias_seq().last().canonical_name@ == canonical_name@
                &&& final(self).alias_seq().last().alias@ == alias@
            },
    {
        let cv = chars_of(canonical_name);
        let av = chars_of(alias);
        if trim_vec(&cv).len() == 0 || trim_vec(&av).len() == 0 {
            return;
        }
        let nc = normalize_for_matching(canonical_name);
        let na = normalize_for_matching(alias);
        let mut k: usize = 0;
        while k < self.aliases.len()
            invariant
                k <= self.aliases.len(),
                nc@ == matching_form(canonical_name@),
                na@ == matching_form(alias@),
                forall|j: int|
                    0 <= j < k ==> !(matching_form(#[trigger] self.aliases@[j].canonical_name@)
                        == matching_form(canonical_name@) && matching_form(
                        self.aliases@[j].alias@,
                    ) == matching_form(alias@)),
            decreases self.aliases.len() - k,
        {
            let ec = normalize_for_matching(self.aliases[k].canonical_name.as_str());
            let ea = normalize_for_matching(self.aliases[k].alias.as_str());
            if vec_eq(&ec, &nc) && vec_eq(&ea, &na) {
                return;
            }
            k += 1;
        }
        self.aliases.push(
            CharacterAlias { canonical_name: canonical_name.to_owned(), alias: alias.to_owned() },
        );
    }

    pub fn add_relationship(&mut self, relationship: RelationshipProfile)
        ensures
            final(self).relationship_seq() == old(self).relationship_seq().push(relationship),
            final(self).profile_seq() == old(self).profile_seq(),
            final(self).alias_seq() == old(self).alias_seq(),
    {
        self.relationships.push(relationship);
    }

    pub fn profiles(&self) -> (r: &[CharacterProfile])
        ensures
            r@ == self.profile_seq(),
    {
        self.profiles.as_slice()
    }

    pub fn aliases(&self) -> (r: &[CharacterAlias])
        ensures
            r@ == self.alias_seq(),
    {
        self.aliases.as_slice()
    }

    pub fn relationships(&self) -> (r: &[RelationshipProfile])
        ensures
            r@ == self.relationship_seq(),
    {
        self.relationships.as_slice()
    }

    /// Whether the character appears in the normalized text under its name or
    /// a registered alias.
    fn character_is_present(&self, normalized_text: &Vec<char>, canonical_name: &str) -> (r: bool)
        ensures
            r == character_present(self.alias_seq(), normalized_text@, canonical_name@),
    {
        if contains_name(normalized_text, canonical_name) {
            return true;
        }
        let nc = normalize_for_matching(canonical_name);
        let mut k: usize = 0;
        while k < self.aliases.len()
            invariant
                k <= self.aliases.len(),
                nc@ == matching_form(canonical_name@),
                forall|j: int|
                    0 <= j < k ==> !#[trigger] alias_hits(
                        self.aliases@[j],
                        normalized_text@,
                        canonical_name@,
                    ),
            decreases self.aliases.len() - k,
        {
            let ec = normalize_for_matching(self.aliases[k].canonical_name.as_str());
            if vec_eq(&ec, &nc) && contains_name(normalized_text, self.aliases[k].alias.as_str()) {
                assert(alias_hits(self.aliases@[k as int], normalized_text@, canonical_name@));
                return true;
            }
            k += 1;
        }
        false
    }

    /// The profiles of the characters that the passage mentions, by name or
    /// alias, as whole words, ignoring case and punctuation.
    pub fn relevant_to_text(&self, text: &str) -> (r: Vec<&CharacterProfile>)
        ensures
            r@.map_values(|p: &CharacterProfile| *p) == self.present_profiles(text@),
    {
        let nt = normalize_for_matching(text);
        let ghost pred = |p: CharacterProfile| character_present(self.alias_seq(), nt@, p.name@);
        let mut out: Vec<&CharacterProfile> = Vec::new();
        let mut i: usize = 0;
        while i < self.profiles.len()
            invariant
                i <= self.profiles.len(),
                nt@ == matching_form(text@),
                pred == (|p: CharacterProfile| character_present(self.alias_seq(), nt@, p.name@)),
                out@.map_values(|p: &CharacterProfile| *p) == self.profiles@.take(i as int).filter(
                    pred,
                ),
            decreases self.profiles.len() - i,
        {
            let ghost before = out@.map_values(|p: &CharacterProfile| *p);
            let p = &self.profiles[i];
            assert(self.profiles@.take(i + 1).drop_last() =~= self.profiles@.take(i as int));
            proof {
                reveal_with_fuel(Seq::filter, 1);
            }
            if self.character_is_present(&nt, p.name.as_str()) {
                out.push(p);
                assert(out@.map_values(|p: &CharacterProfile| *p) =~= before.push(*p));
            }
            i += 1;
        }
        assert(self.profiles@.take(self.profiles@.len() as int) =~= self.profiles@);
        out
    }

    /// The relationships whose two characters the passage both mentions.
    pub fn relevant_relationships(&self, text: &str) -> (r: Vec<&RelationshipProfile>)
        ensures
            r@.map_values(|p: &RelationshipProfile| *p) == self.present_relationships(text@),
    {
        let nt = normalize_for_matching(text);
        let ghost pred = |r: RelationshipProfile|
            character_present(self.alias_seq(), nt@, r.character_a@) && character_present(
                self.alias_seq(),
                nt@,
                r.character_b@,
            );
        let mut out: Vec<&RelationshipProfile> = Vec::new();
        let mut i: usize = 0;
        while i < self.relationships.len()
            invariant
                i <= self.relationships.len(),
                nt@ == matching_form(text@),
                pred == (|r: RelationshipProfile|
                    character_present(self.alias_seq(), nt@, r.character_a@) && character_present(
                        self.alias_seq(),
                        nt@,
                        r.character_b@,
                    )),
                out@.map_values(|p: &RelationshipProfile| *p) == self.relationships@.take(
                    i as int,
                ).filter(pred),
            decreases self.relationships.len() - i,
        {
            let ghost before = out@.map_values(|p: &RelationshipProfile| *p);
            let rel = &self.relationships[i];
            assert(self.relationships@.take(i + 1).drop_last() =~= self.relationships@.take(
                i as int,
            ));
            proof {
                reveal_with_fuel(Seq::filter, 1);
            }
            if self.character_is_present(&nt, rel.character_a.as_str())
                && self.character_is_present(&nt, rel.character_b.as_str()) {
                out.push(rel);
                assert(out@.map_values(|p: &RelationshipProfile| *p) =~= before.push(*rel));
            }
            i += 1;
        }
        assert(self.relationships@.take(self.relationships@.len() as int) =~= self.relationships@);
        out
    }

    /// The prompt context for a passage: the voice and personality of each
    /// character present, then the dynamics of each relationship present.
    pub fn context_for_text(&self, text: &str) -> (r: String)
        ensures
            r@ == self.text_context(text@),
    {
        let profiles = self.relevant_to_text(text);
        let relationships = self.relevant_relationships(text);
        let ghost ps = profiles@.map_values(|p: &CharacterProfile| *p);
        let ghost rs = relationships@.map_values(|p: &RelationshipProfile| *p);
        let ghost target = ps.map_values(|p: CharacterProfile| character_context(p))
            + rs.map_values(|r: RelationshipProfile| relationship_context(r));
        let mut sections: Vec<Vec<char>> = Vec::new();
        let mut i: usize = 0;
        while i < profiles.len()
            invariant
                i <= profiles.len(),
                ps == profiles@.map_values(|p: &CharacterProfile| *p),
                sections.deep_view() == target.take(i as int),
                target == ps.map_values(|p: CharacterProfile| character_context(p))
                    + rs.map_values(|r: RelationshipProfile| relationship_context(r)),
            decreases profiles.len() - i,
        {
            let ghost before = sections.deep_view();
            let block = build_character_context(profiles[i]);
            let bv = chars_of(block.as_str());
            proof {
                lemma_char_vec_deep(&bv);
            }
            sections.push(bv);
            assert(ps[i as int] == *profiles@[i as int]);
            assert(target[i as int] == character_context(ps[i as int]));
            assert(sections.deep_view() =~= before.push(bv@));
            assert(target.take(i + 1) =~= target.take(i as int).push(target[i as int]));
            i += 1;
        }
        let mut j: usize = 0;
        while j < relationships.len()
            invariant
                j <= relationships.len(),
                profiles.len() == ps.len(),
                rs == relationships@.map_values(|p: &RelationshipProfile| *p),
                sections.deep_view() == target.take(ps.len() + j),
                target == ps.map_values(|p: CharacterProfile| character_context(p))
                    + rs.map_values(|r: RelationshipProfile| relationship_context(r)),
            decreases relationships.len() - j,
        {
            let ghost before = sections.deep_view();
            let block = relationships[j].context();
            let bv = chars_of(block.as_str());
            proof {
                lemma_char_vec_deep(&bv);
            }
            sections.push(bv);
            assert(rs[j as int] == *relationships@[j as int]);
            assert(target[ps.len() + j] == relationship_context(rs[j as int]));
            assert(sections.deep_view() =~= before.push(bv@));
            assert(target.take(ps.len() + j + 1) =~= target.take(ps.len() + j).push(
                target[ps.len() + j],
            ));
            j += 1;
        }
        assert(target.take(target.len() as int) =~= target);
        let sep = chars_of("\n\n");
        let out = join_exec(&sections, &sep);
        string_of(&out)
    }
}

/// Remembered dynamics between two characters.
#[derive(Debug, Clone)]
pub struct RelationshipMemory {
    pub character_a: String,
    pub character_b: String,
    pub dynamic_notes: String,
}

impl RelationshipMemory {
    pub fn new(a: &str, b: &str, notes: &str) -> (r: RelationshipMemory)
        ensures
            r.character_a@ == a@,
            r.character_b@ == b@,
            r.dynamic_notes@ == notes@,
    {
        RelationshipMemory {
            character_a: a.to_owned(),
            character_b: b.to_owned(),
            dynamic_notes: notes.to_owned(),
        }
    }
}

/// How a character speaks.
#[derive(Debug, Clone)]
pub struct VoiceProfile {
    pub character_name: String,
    pub speech_style: String,
    pub vocabulary_notes: Vec<String>,
    pub emotional_patterns: Vec<String>,
}

impl VoiceProfile {
    /// A voice profile with nothing recorded yet.
    pub fn new(name: &str) -> (r: VoiceProfile)
        ensures
            r.character_name@ == name@,
            r.speech_style@.len() == 0,
            r.vocabulary_notes@.len() == 0,
            r.emotional_patterns@.len() == 0,
    {
        VoiceProfile {
            character_name: name.to_owned(),
            speech_style: String::new(),
            vocabulary_notes: Vec::new(),
            emotional_patterns: Vec::new(),
        }
    }
}

/// The name, normalized for matching, is non-empty and occurs as whole words
/// in the passage normalized the same way.
pub open spec fn mentioned(text: Seq<char>, name: Seq<char>) -> bool {
    let n = matching_form(name);
    &&& n.len() > 0
    &&& contains(seq![' '] + matching_form(text) + seq![' '], seq![' '] + n + seq![' '])
}

/// The passage mentions the character by its own name, or by an alias that
/// was registered under that same (normalized) name.
pub open spec fn mentions_character(aliases: Seq<CharacterAlias>, text: Seq<char>, name: Seq<char>) -> bool {
    ||| mentioned(text, name)
    ||| exists|k: int|
        0 <= k < aliases.len() && matching_form(#[trigger] aliases[k].canonical_name@)
            == matching_form(name) && mentioned(text, aliases[k].alias@)
}

/// Law: the profiles a passage retrieves are exactly the bible's profiles
/// that the passage mentions by their own name or by one of their own
/// aliases; an alias registered for one character never brings in another.
pub proof fn lemma_relevant_profiles_exact(b: CharacterBible, text: Seq<char>)
    ensures
        forall|p: CharacterProfile|
            #[trigger] b.present_profiles(text).contains(p) <==> (b.profile_seq().contains(p)
                && mentions_character(b.alias_seq(), text, p.name@)),
{
    broadcast use vstd::seq_lib::group_filter_ensures, Seq::lemma_filter_contains_rev;

    let nt = matching_form(text);
    let aliases = b.alias_seq();
    let ps = b.profile_seq();
    assert forall|p: CharacterProfile|
        #[trigger] b.present_profiles(text).contains(p) <==> (ps.contains(p) && mentions_character(
            aliases,
            text,
            p.name@,
        )) by {
        lemma_present_is_mentioned(aliases, text, p.name@);
        let f = b.present_profiles(text);
        if f.contains(p) {
            let i = choose|i: int| 0 <= i < f.len() && f[i] == p;
            assert(ps.contains(p));
            assert(character_present(aliases, nt, f[i].name@));
        }
        if ps.contains(p) && mentions_character(aliases, text, p.name@) {
            let i = choose|i: int| 0 <= i < ps.len() && ps[i] == p;
            assert(character_present(aliases, nt, ps[i].name@));
            assert(f.contains(ps[i]));
        }
    }
}

proof fn lemma_present_is_mentioned(aliases: Seq<CharacterAlias>, text: Seq<char>, q: Seq<char>)
    ensures
        character_present(aliases, matching_form(text), q) == mentions_character(aliases, text, q),
{
    let nt = matching_form(text);
    assert(padded(nt) =~= seq![' '] + nt + seq![' ']);
    assert(padded(matching_form(q)) =~= seq![' '] + matching_form(q) + seq![' ']);
    if character_present(aliases, nt, q) && !name_in(nt, q) {
        let k = choose|k: int| 0 <= k < aliases.len() && #[trigger] alias_hits(aliases[k], nt, q);
        assert(padded(matching_form(aliases[k].alias@)) =~= seq![' '] + matching_form(
            aliases[k].alias@,
        ) + seq![' ']);
    }
    if mentions_character(aliases, text, q) && !mentioned(text, q) {
        let k = choose|k: int|
            0 <= k < aliases.len() && matching_form(#[trigger] aliases[k].canonical_name@)
                == matching_form(q) && mentioned(text, aliases[k].alias@);
        assert(padded(matching_form(aliases[k].alias@)) =~= seq![' '] + matching_form(
            aliases[k].alias@,
        ) + seq![' ']);
        assert(alias_hits(aliases[k], nt, q));
    }
}

/// Law: the relationships a passage retrieves are exactly the bible's
/// relationships whose two characters the passage both mentions, each by its
/// own name or one of its own aliases.
pub proof fn lemma_relevant_relationships_exact(b: CharacterBible, text: Seq<char>)
    ensures
        forall|r: RelationshipProfile|
            #[trigger] b.present_relationships(text).contains(r) <==> (b.relationship_seq().contains(r)
                && mentions_character(b.alias_seq(), text, r.character_a@) && mentions_character(
                b.alias_seq(),
                text,
                r.character_b@,
            )),
{
    broadcast use vstd::seq_lib::group_filter_ensures, Seq::lemma_filter_contains_rev;

    let nt = matching_form(text);
    let aliases = b.alias_seq();
    let rs = b.relationship_seq();
    assert forall|r: RelationshipProfile|
        #[trigger] b.present_relationships(text).contains(r) <==> (rs.contains(r) && mentions_character(
            aliases,
            text,
            r.character_a@,
        ) && mentions_character(aliases, text, r.character_b@)) by {
        lemma_present_is_mentioned(aliases, text, r.character_a@);
        lemma_present_is_mentioned(aliases, text, r.character_b@);
        let f = b.present_relationships(text);
        if f.contains(r) {
            let i = choose|i: int| 0 <= i < f.len() && f[i] == r;
            assert(rs.contains(r));
            assert(character_present(aliases, nt, f[i].character_a@));
        }
        if rs.contains(r) && mentions_character(aliases, text, r.character_a@) && mentions_character(
            aliases,
            text,
            r.character_b@,
        ) {
            let i = choose|i: int| 0 <= i < rs.len() && rs[i] == r;
            assert(character_present(aliases, nt, rs[i].character_a@));
            assert(f.contains(rs[i]));
        }
    }
}

} // verus!
