use plotx::xrd::{
    check_process_inputs, snip_pass_count, smoothing_source_index, validate, SavitzkyGolay,
    SnipBackground, XrdNormalization, XrdProcessing, XrdProcessingError, MAX_SAVGOL_WINDOW,
    MAX_SNIP_ITERATIONS,
};
use plotx::xrd_container::{
    decode_xrd_arrays, decode_xrd_metadata, encode_xrd, validate_array_len,
    validate_materialized_size, ProjectLoadLimits, XrdArrays, XrdContainerError,
};

const METADATA: &[u8] = br#"{"two_theta_deg":[],"intensity":[],"attenuation":[],"source":"sample.rasx","instrument":"MiniFlex","target":"Cu","wavelength_angstrom":1.540593,"voltage_kv":40.0,"current_ma":15.0,"scan_step_deg":0.1,"scan_speed_deg_min":5.0}"#;

fn bits(values: &[f64]) -> Vec<u64> {
    values.iter().map(|value| value.to_bits()).collect()
}

fn fixture() -> XrdArrays {
    XrdArrays {
        two_theta: bits(&[3.0, 3.1, 3.2]),
        intensity: bits(&[10.0, 25.0, 12.0]),
        attenuation: Some(bits(&[1.0, 1.0, 2.0])),
    }
}

fn encode(arrays: &XrdArrays) -> Vec<u8> {
    encode_xrd(&METADATA.to_vec(), arrays, ProjectLoadLimits::standard()).unwrap()
}

fn decode_bytes(bytes: &[u8]) -> Result<(Vec<u8>, XrdArrays), XrdContainerError> {
    let bytes = bytes.to_vec();
    let limits = ProjectLoadLimits::standard();
    let (metadata, pos) = decode_xrd_metadata(&bytes, limits)?;
    let document: serde_json::Value = serde_json::from_slice(&metadata).unwrap();
    let has_attenuation = !document["attenuation"].is_null();
    let arrays = decode_xrd_arrays(&bytes, pos, has_attenuation, limits)?;
    Ok((metadata, arrays))
}

fn processing() -> XrdProcessing {
    XrdProcessing::default()
}

#[test]
fn rejects_zero_background_iterations() {
    let error = check_process_inputs(
        3,
        3,
        XrdProcessing {
            background: Some(SnipBackground { iterations: 0 }),
            ..processing()
        },
    )
    .unwrap_err();

    assert_eq!(error, XrdProcessingError::InvalidBackground);
}

#[test]
fn rejects_processing_parameters_above_supported_limits() {
    let background = check_process_inputs(
        3,
        3,
        XrdProcessing {
            background: Some(SnipBackground {
                iterations: MAX_SNIP_ITERATIONS + 1,
            }),
            ..processing()
        },
    )
    .unwrap_err();
    assert_eq!(background, XrdProcessingError::InvalidBackground);

    let smoothing = check_process_inputs(
        3,
        3,
        XrdProcessing {
            smoothing: Some(SavitzkyGolay {
                window: MAX_SAVGOL_WINDOW + 2,
                polynomial_order: 3,
            }),
            ..processing()
        },
    )
    .unwrap_err();
    assert_eq!(smoothing, XrdProcessingError::InvalidSmoothing);
}

#[test]
fn smoothing_windows_must_be_odd_and_wider_than_the_order() {
    let smooth = |window, polynomial_order| {
        validate(XrdProcessing {
            smoothing: Some(SavitzkyGolay {
                window,
                polynomial_order,
            }),
            ..processing()
        })
    };
    assert_eq!(smooth(5, 2), Ok(()));
    assert_eq!(smooth(101, 6), Ok(()));
    assert_eq!(smooth(4, 2), Err(XrdProcessingError::InvalidSmoothing));
    assert_eq!(smooth(1, 0), Err(XrdProcessingError::InvalidSmoothing));
    assert_eq!(smooth(5, 5), Err(XrdProcessingError::InvalidSmoothing));
    assert_eq!(smooth(9, 7), Err(XrdProcessingError::InvalidSmoothing));
    assert_eq!(
        check_process_inputs(3, 2, processing()),
        Err(XrdProcessingError::LengthMismatch)
    );
    assert_eq!(
        validate(XrdProcessing {
            background: Some(SnipBackground { iterations: MAX_SNIP_ITERATIONS }),
            normalization: XrdNormalization::Area,
            ..processing()
        }),
        Ok(())
    );
}

#[test]
fn filter_index_rules() {
    assert_eq!(snip_pass_count(200, 5), 2);
    assert_eq!(snip_pass_count(1, 5), 1);
    assert_eq!(snip_pass_count(3, 0), 0);
    assert_eq!(smoothing_source_index(0, 0, 2, 5), 0);
    assert_eq!(smoothing_source_index(4, 4, 2, 5), 4);
    assert_eq!(smoothing_source_index(2, 3, 2, 5), 3);
}

#[test]
fn binary_round_trip_preserves_arrays_and_metadata() {
    let original = fixture();
    let (metadata, decoded) = decode_bytes(&encode(&original)).unwrap();

    assert_eq!(decoded.two_theta, original.two_theta);
    assert_eq!(decoded.intensity, original.intensity);
    assert_eq!(decoded.attenuation, original.attenuation);
    let document: serde_json::Value = serde_json::from_slice(&metadata).unwrap();
    assert_eq!(document["instrument"], "MiniFlex");
    assert_eq!(document["wavelength_angstrom"], 1.540593);
}

#[test]
fn binary_decoder_rejects_truncation_and_trailing_bytes() {
    let encoded = encode(&fixture());
    assert!(decode_bytes(&encoded[..encoded.len() - 1]).is_err());

    let mut trailing = encoded;
    trailing.push(0);
    assert!(decode_bytes(&trailing).is_err());
}

#[test]
fn rejects_implausible_array_length_before_allocation() {
    let mut encoded = encode(&fixture());
    let metadata_len = u64::from_le_bytes(encoded[8..16].try_into().unwrap()) as usize;
    let first_array_len = 16 + metadata_len;
    encoded[first_array_len..first_array_len + 8].copy_from_slice(&u64::MAX.to_le_bytes());

    assert!(decode_bytes(&encoded).is_err());
}

#[test]
fn rejects_aggregate_arrays_over_materialized_limit_before_allocation() {
    let mut encoded = encode(&fixture());
    let metadata_len = u64::from_le_bytes(encoded[8..16].try_into().unwrap()) as usize;
    let first_array_len = 16 + metadata_len;
    let points = ProjectLoadLimits::standard().max_materialized_bytes / (3 * 8) + 1;
    encoded[first_array_len..first_array_len + 8].copy_from_slice(&points.to_le_bytes());

    let error = decode_bytes(&encoded).unwrap_err();
    assert!(error.message().contains("materialized-data limit"));
}

#[test]
fn container_errors_name_their_cause() {
    let mut encoded = encode(&fixture());
    encoded[0] = b'Q';
    assert_eq!(decode_bytes(&encoded), Err(XrdContainerError::BadSignature));

    let limits = ProjectLoadLimits::standard();
    assert_eq!(
        validate_array_len(limits.max_collection_items + 1, limits),
        Err(XrdContainerError::ArrayTooLong {
            len: 268_435_457,
            limit: 268_435_456
        })
    );
    assert_eq!(
        validate_array_len(limits.max_collection_items + 1, limits)
            .unwrap_err()
            .message(),
        "XRD array contains 268435457 values, exceeding the 268435456-item limit"
    );
    assert_eq!(validate_materialized_size(3, true, limits), Ok(()));
    assert_eq!(
        validate_materialized_size(200_000_000, false, limits)
            .unwrap_err()
            .message(),
        "XRD arrays require 3200000000 bytes, exceeding the 2147483648-byte materialized-data limit"
    );

    let uneven = XrdArrays {
        two_theta: bits(&[1.0, 2.0]),
        intensity: bits(&[1.0]),
        attenuation: None,
    };
    assert_eq!(
        encode_xrd(&METADATA.to_vec(), &uneven, limits),
        Err(XrdContainerError::InvalidData)
    );
}

#[test]
fn an_entry_without_attenuation_round_trips() {
    let arrays = XrdArrays {
        two_theta: bits(&[10.0, 20.0]),
        intensity: bits(&[5.0, 6.0]),
        attenuation: None,
    };
    let metadata = br#"{"two_theta_deg":[],"intensity":[],"attenuation":null}"#.to_vec();
    let bytes = encode_xrd(&metadata, &arrays, ProjectLoadLimits::standard()).unwrap();
    assert_eq!(&bytes[..8], b"PXXRD1\0\0");
    assert_eq!(bytes.len(), 16 + metadata.len() + 2 * (8 + 2 * 8));
    let (decoded_metadata, decoded) = decode_bytes(&bytes).unwrap();
    assert_eq!(decoded_metadata, metadata);
    assert_eq!(decoded, arrays);
}
