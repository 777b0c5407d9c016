//! Tests of share generation, reconstruction and validation.

use ssss::gen_shares;
use ssss::remove_random_entry;
use ssss::unlock;
use ssss::utils::check_err_result;
use ssss::SsssConfig;

#[test]
fn empty_secret() -> Result<(), String> {
    let config = SsssConfig::default();
    let result = gen_shares(&config, &[]);
    check_err_result(result, "The secret cannot be empty")
}

#[test]
fn max_secret() -> Result<(), String> {
    let config = SsssConfig::builder().max_secret_size(3).build();
    let result = gen_shares(&config, "abcd".as_bytes());
    check_err_result(
        result,
        "The secret length \'4\' is longer than the maximum allowed \'3\'",
    )
}

#[test]
fn zero_parts() -> Result<(), String> {
    let config = SsssConfig::builder().num_shares(0).build();
    let result = gen_shares(&config, "a".as_bytes());
    check_err_result(result, "The number of shares must be greater than 0")
}

#[test]
fn zero_threshold() -> Result<(), String> {
    let config = SsssConfig::builder().threshold(0).build();
    let result = gen_shares(&config, "a".as_bytes());
    check_err_result(result, "The threshold must be greater than 0")
}

#[test]
fn threshold_greater_than_parts() -> Result<(), String> {
    let config = SsssConfig::builder().threshold(6).build();
    let result = gen_shares(&config, "a".as_bytes());
    check_err_result(
        result,
        "You have specified an invalid threshold.  It must be less than or equal to the number of shares. (6 is not <= 5)",
    )
}

#[test]
fn empty_share_map() -> Result<(), String> {
    let result = unlock(&[]);
    check_err_result(result, "The shares map cannot be empty")
}

#[test]
fn shares_of_differing_lengths() -> Result<(), String> {
    let bad_shares = vec![
        ssss::share_codec::encode_share((1, "abc".as_bytes().to_vec())).unwrap(),
        ssss::share_codec::encode_share((2, "abcdef".as_bytes().to_vec())).unwrap(),
    ];
    let result = unlock(&bad_shares);
    check_err_result(result, "The shares must be the same length")
}

#[test]
fn empty_shares() -> Result<(), String> {
    let bad_shares = vec![ssss::share_codec::encode_share((1, vec![])).unwrap()];
    let result = unlock(&bad_shares);
    check_err_result(result, "A share cannot be empty")
}

#[test]
fn too_many_shares() {
    let config = SsssConfig::default();
    let secret = "abc".as_bytes();
    let mut shares = gen_shares(&config, secret).unwrap();
    shares.push(ssss::share_codec::encode_share((6, "abc".as_bytes().to_vec())).unwrap());
    shares.push(ssss::share_codec::encode_share((7, "def".as_bytes().to_vec())).unwrap());
    shares.push(ssss::share_codec::encode_share((8, "ghi".as_bytes().to_vec())).unwrap());
    assert_eq!(shares.len(), 8);
    let unlocked = unlock(&shares).unwrap();
    assert_ne!(unlocked, secret);
}

#[test]
fn split_and_join() {
    let secret = "correct horse battery staple".as_bytes();
    let config = SsssConfig::default();
    let shares = gen_shares(&config, secret).unwrap();

    let mut parts = shares;
    assert_eq!(parts.len(), 5);
    assert_eq!(unlock(&parts).unwrap(), secret);

    let mut rng = rand::rng();
    remove_random_entry(&mut rng, &mut parts);
    assert_eq!(parts.len(), 4);
    assert_eq!(unlock(&parts).unwrap(), secret);

    remove_random_entry(&mut rng, &mut parts);
    assert_eq!(parts.len(), 3);
    assert_eq!(unlock(&parts).unwrap(), secret);

    remove_random_entry(&mut rng, &mut parts);
    assert_eq!(parts.len(), 2);
    assert_ne!(unlock(&parts).unwrap(), secret);
}

#[test]
fn under_threshold_has_correct_length() {
    let secret = "correct horse battery staple".as_bytes();
    let config = SsssConfig::default();
    let shares = gen_shares(&config, secret).unwrap();
    let two = vec![shares[0].clone(), shares[1].clone()];
    let wrong = unlock(&two).unwrap();
    assert_eq!(wrong.len(), secret.len());
    assert_ne!(wrong, secret);
}

#[test]
fn default_config_is_valid() {
    assert!(SsssConfig::default().validate().is_ok());
    assert!(SsssConfig::builder().num_shares(255).threshold(255).build().validate().is_ok());
}

#[test]
fn secret_at_size_limit_is_accepted() {
    let config = SsssConfig::builder().max_secret_size(4).build();
    let shares = gen_shares(&config, "abcd".as_bytes()).unwrap();
    assert_eq!(shares.len(), 5);
    assert_eq!(unlock(&shares).unwrap(), "abcd".as_bytes());
}

#[test]
fn single_share_single_byte() {
    let config = SsssConfig::builder().num_shares(1).threshold(1).build();
    let shares = gen_shares(&config, &[42]).unwrap();
    assert_eq!(shares.len(), 1);
    assert_eq!(unlock(&shares).unwrap(), vec![42]);
}

#[test]
fn many_shares_unlock() {
    let config = SsssConfig::builder().num_shares(255).threshold(255).build();
    let shares = gen_shares(&config, &[9, 8, 7]).unwrap();
    assert_eq!(shares.len(), 255);
    assert_eq!(unlock(&shares).unwrap(), vec![9, 8, 7]);
}

#[test]
fn duplicate_tokens_keep_one_share() {
    let config = SsssConfig::builder().num_shares(3).threshold(2).build();
    let secret = "pq".as_bytes();
    let mut shares = gen_shares(&config, secret).unwrap();
    let repeat = shares[0].clone();
    shares.push(repeat);
    assert_eq!(shares.len(), 4);
    assert_eq!(unlock(&shares).unwrap(), secret);
}

#[test]
fn undecodable_tokens_are_dropped() {
    let config = SsssConfig::default();
    let secret = "xyz".as_bytes();
    let mut shares = gen_shares(&config, secret).unwrap();
    shares.push("not-a-valid-token".to_string());
    assert_eq!(unlock(&shares).unwrap(), secret);
}

#[test]
fn all_tokens_undecodable_is_empty_map() -> Result<(), String> {
    let result = unlock(&["not-a-valid-token".to_string(), "???".to_string()]);
    check_err_result(result, "The shares map cannot be empty")
}
