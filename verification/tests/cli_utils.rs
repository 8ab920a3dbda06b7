use finalyst::cli::{CollectArgs, ResetArgs};
use finalyst::config::default_sources;
use finalyst::utils::{progress_chars, progress_template};

#[test]
fn reset_counts_down_from_three() {
    assert_eq!(ResetArgs {}.countdown(), vec![3, 2, 1]);
}

#[test]
fn collect_limit_defaults_to_all() {
    assert_eq!(CollectArgs { limit: None }.feed_limit(), usize::MAX);
    assert_eq!(CollectArgs { limit: Some(4) }.feed_limit(), 4);
}

#[test]
fn progress_template_depends_on_known_length() {
    assert_eq!(progress_template(0), "  [{spinner:.green}] {msg} │ {elapsed:<4}");
    assert_eq!(
        progress_template(3),
        "  [{spinner:.green}] {msg} {wide_bar:.green/red} {pos}/{len} ({percent}%) │ {elapsed:<4}"
    );
    assert_eq!(progress_chars(), "━━━");
}

#[test]
fn default_sources_are_the_three_feeds() {
    assert_eq!(
        default_sources(),
        vec![
            "https://fortune.com/feed/fortune-feeds/?id=3230629".to_string(),
            "https://econbrowser.com/feed".to_string(),
            "https://economictimes.indiatimes.com/rssfeedsdefault.cms".to_string(),
        ]
    );
}
