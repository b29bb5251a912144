use getprice::errors::AppError;

#[test]
fn each_failure_says_what_went_wrong() {
    assert_eq!(AppError::UnrecognizedAsset("DOGE".to_string()).message(), "✘ Unrecognized asset: DOGE");
    assert_eq!(AppError::UnsupportedCurrency("XYZ".to_string()).message(), "✘ Unsupported currency: XYZ");
    assert_eq!(AppError::MissingField("rates.GBP".to_string()).message(), "✘ Missing field: rates.GBP");
    assert_eq!(AppError::NonNumericField("rates.GBP".to_string()).message(), "✘ Not a number: rates.GBP");
    assert_eq!(AppError::TransportFailure("timed out".to_string()).message(), "✘ Request failed: timed out");
    assert_eq!(
        AppError::MalformedResponse("expected value at line 1 column 1".to_string()).message(),
        "✘ Reply is not JSON: expected value at line 1 column 1"
    );
    assert_eq!(
        AppError::InputLengthMismatch(2, 3).message(),
        "✘ Amounts do not match assets: expected 2, got 3"
    );
    assert_eq!(
        AppError::InputLengthMismatch(0, 1234567890).message(),
        "✘ Amounts do not match assets: expected 0, got 1234567890"
    );
}
