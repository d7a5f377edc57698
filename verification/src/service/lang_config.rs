//! What phantom detection knows of a language.
use vstd::prelude::*;

verus! {

/// The patterns and phrases of one language. An empty pattern is inert.
pub struct LangConfig {
    pub intent_phrases: Vec<String>,
    pub action_verbs: Vec<String>,
    pub line_start_re: String,
    /// A brief announcement of work that ends a turn without a tool call.
    pub work_announcement_re: String,
    pub completion_claims: Vec<String>,
    /// Phrases that present a named command as already run.
    pub executed_framings: Vec<String>,
    /// First-person intent with the verb in its first group.
    pub generic_intent_re: String,
    /// Verbs that follow such an intent without promising work.
    pub intent_verb_exclusions: Vec<String>,
    /// A sequenced plan without a marker of imminence.
    pub plan_announcement_re: String,
    /// A participle with its own object; its first group is the rest of the
    /// clause.
    pub participle_object_re: String,
    /// Words that may follow the object in an announcement.
    pub announcement_tail_words: Vec<String>,
    /// Words that make a bare tool name the object of the model's own action.
    pub tool_use_markers: Vec<String>,
    /// Nouns that name the preceding word as a tool.
    pub tool_nouns: Vec<String>,
    /// Determiners allowed between a marker and a name.
    pub tool_name_determiners: Vec<String>,
    pub gerund_re: String,
    pub trailing_colon_re: String,
    pub now_imperative_re: String,
    pub numbered_steps_re: String,
    pub past_tense_standalone_re: String,
    pub path_re: String,
    pub ext_re: String,
    pub backtick_code_re: String,
    /// Claims that an image was delivered.
    pub media_delivery_phrases: Vec<String>,
    /// Words that mark a claimed result as an image.
    pub media_context_words: Vec<String>,
    /// Claims that a file was sent.
    pub file_delivery_phrases: Vec<String>,
    /// Words that mark what was sent as a file.
    pub file_context_words: Vec<String>,
}

} // verus!
