use text_anonymizer::config_files::{config_file_name, config_name_of_file};
use text_anonymizer::sample_config;

#[test]
fn sample_config_shape() {
    let c = sample_config();
    assert_eq!(c.config_name, "Sample");
    assert!(c.case_insensitive);
    assert!(c.whole_words_only);
    assert_eq!(c.replacements.len(), 6);
    assert_eq!(c.replacements[0].original, "CompanyName Inc.");
    assert_eq!(c.replacements[0].replacement, "COMPANY_ANONYMOUS");
    assert_eq!(c.replacements[4].original, "David");
    assert_eq!(c.replacements[4].replacement, "Lucas");
    assert_eq!(c.replacements[5].original, "Microsoft");
    assert_eq!(c.replacements[5].replacement, "TECH_COMPANY");
}

#[test]
fn config_file_name_builds_prefix_and_extension() {
    assert_eq!(config_file_name("Work"), "config_Work.json");
    assert_eq!(config_file_name(""), "config_.json");
}

#[test]
fn config_name_round_trips_through_file_name() {
    assert_eq!(
        config_name_of_file(&config_file_name("My Rules")).as_deref(),
        Some("My Rules")
    );
    assert_eq!(config_name_of_file("config_.json").as_deref(), Some(""));
}

#[test]
fn foreign_file_names_are_not_configs() {
    assert!(config_name_of_file("notes.txt").is_none());
    assert!(config_name_of_file("config_x.txt").is_none());
    assert!(config_name_of_file("other_x.json").is_none());
    assert!(config_name_of_file("config_").is_none());
    assert!(config_name_of_file("conf.json").is_none());
}
