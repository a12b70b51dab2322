//! The data model: replacement rules, the configuration that carries an
//! ordered rule list with its matching flags, and the structured outcome
//! of a transformation.

use vstd::prelude::*;
use vstd::string::StringExecFns;

verus! {

/// One literal substitution pair. Forward, occurrences of `original`
/// become `replacement`; inverse, occurrences of `replacement` become
/// `original`. Both fields are opaque literal text, never a pattern
/// language.
#[derive(Debug, Clone)]
pub struct ReplacementRule {
    pub original: String,
    pub replacement: String,
}

/// A named, ordered rule list with its matching configuration. Rule
/// order is significant: the forward direction applies rules in list
/// order, the inverse direction in reverse order.
#[derive(Debug, Clone)]
pub struct AnonymizerConfig {
    pub config_name: String,
    pub case_insensitive: bool,
    pub whole_words_only: bool,
    pub replacements: Vec<ReplacementRule>,
    pub created_date: String,
    pub last_modified: String,
}

/// Relies on chrono's `Utc::now` and `DateTime::format`: the current UTC
/// date written as year, month and day. Nothing is promised of the
/// result, which depends on the clock; chrono aborts on a system clock
/// set before the Unix epoch.
#[verifier::external_body]
fn today_utc() -> (s: String) {
    chrono::Utc::now().format("%Y-%m-%d").to_string()
}

impl Default for AnonymizerConfig {
    /// An empty rule list named "Default", matching case-sensitively and
    /// whole words only, with both date stamps from the same moment.
    fn default() -> (c: Self)
        ensures
            c.config_name@ == "Default"@,
            !c.case_insensitive,
            c.whole_words_only,
            c.replacements@.len() == 0,
            c.created_date@ == c.last_modified@,
    {
        let now = today_utc();
        let created = now.clone();
        AnonymizerConfig {
            config_name: String::from_str("Default"),
            case_insensitive: false,
            whole_words_only: true,
            replacements: Vec::new(),
            created_date: created,
            last_modified: now,
        }
    }
}

/// The outcome of one transformation: a success flag, a message meant
/// for the user verbatim, and the transformed text, present exactly on
/// success.
#[derive(Debug)]
pub struct AnonymizationResult {
    pub success: bool,
    pub message: String,
    pub text: Option<String>,
}

fn rule_of(original: &str, replacement: &str) -> (r: ReplacementRule)
    ensures
        r.original@ == original@,
        r.replacement@ == replacement@,
{
    ReplacementRule {
        original: String::from_str(original),
        replacement: String::from_str(replacement),
    }
}

/// A ready-made example configuration named "Sample": case-insensitive,
/// whole words only, with six rules that mask a company name, an email
/// address, a table name, an API key and two proper names, dated today.
pub fn sample_config() -> (c: AnonymizerConfig)
    ensures
        c.config_name@ == "Sample"@,
        c.case_insensitive,
        c.whole_words_only,
        c.replacements@.len() == 6,
        c.replacements@[0].original@ == "CompanyName Inc."@,
        c.replacements@[0].replacement@ == "COMPANY_ANONYMOUS"@,
        c.replacements@[1].original@ == "john.doe@company.com"@,
        c.replacements@[1].replacement@ == "user1@example.com"@,
        c.replacements@[2].original@ == "table_production_data"@,
        c.replacements@[2].replacement@ == "table_generic_data"@,
        c.replacements@[3].original@ == "api_key_12345"@,
        c.replacements@[3].replacement@ == "API_KEY_HIDDEN"@,
        c.replacements@[4].original@ == "David"@,
        c.replacements@[4].replacement@ == "Lucas"@,
        c.replacements@[5].original@ == "Microsoft"@,
        c.replacements@[5].replacement@ == "TECH_COMPANY"@,
{
    let mut replacements: Vec<ReplacementRule> = Vec::new();
    replacements.push(rule_of("CompanyName Inc.", "COMPANY_ANONYMOUS"));
    replacements.push(rule_of("john.doe@company.com", "user1@example.com"));
    replacements.push(rule_of("table_production_data", "table_generic_data"));
    replacements.push(rule_of("api_key_12345", "API_KEY_HIDDEN"));
    replacements.push(rule_of("David", "Lucas"));
    replacements.push(rule_of("Microsoft", "TECH_COMPANY"));
    AnonymizerConfig {
        config_name: String::from_str("Sample"),
        case_insensitive: true,
        whole_words_only: true,
        replacements,
        created_date: today_utc(),
        last_modified: today_utc(),
    }
}

} // verus!
