use delay_message_rs::config::Config;

#[test]
fn test_config() {
    let config = Config {
        commit_log_file_size: 1024,
        max_delay_time: 31_536_000,
        consume_queue_file_size: 2400,
    };
    println!("{config:?}");
    assert!(config.is_valid());
    assert!(!Config { consume_queue_file_size: 8, ..config }.is_valid());
}
