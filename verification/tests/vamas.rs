use plotx::text::split_lines;
use plotx::vamas_report::{import_plan, measurement_order, RegionPlan};
use plotx::vamas::{
    comment, comment_usize, metadata_from_comments, parse_header, position_variables, parse_vamas, EnergyKind, FiniteNumber, NumberText, VamasBlock, VamasError,
    VamasField, VamasHeader, VAMAS_MAGIC,
};

/// How each line reads as a real number, the way the importer classifies it.
fn numbers(text: &str) -> Vec<NumberText> {
    split_lines(text)
        .iter()
        .map(|line| {
            let line: String = line.iter().collect();
            match line.trim().parse::<f64>() {
                Err(_) => NumberText::Invalid,
                Ok(value) if !value.is_finite() => NumberText::NonFinite,
                Ok(value) => NumberText::Finite(FiniteNumber {
                    is_zero: value == 0.0,
                    is_physical: value.abs() < 1.0e36 && value > 0.0,
                    scan_count: (value >= 1.0
                        && value <= u32::MAX as f64
                        && value.fract().abs() <= f64::EPSILON)
                        .then_some(value.round() as u32),
                }),
            }
        })
        .collect()
}

fn header_lines(block_count: &str) -> Vec<String> {
    [
        VAMAS_MAGIC,
        "Institution",
        "Instrument",
        "Operator",
        "Experiment",
        "1",
        "A header comment",
        "NORM",
        "REGULAR",
        "1",
        "0",
        "0",
        "0",
        "0",
        "0",
        block_count,
    ]
    .iter()
    .map(|line| line.to_string())
    .collect()
}

fn block_lines() -> Vec<String> {
    [
        "C 1s",
        "Sample A",
        "2024",
        "5",
        "17",
        "10",
        "30",
        "0",
        "0",
        "1",
        "Number Steps : 2",
        "XPS",
        "Al",
        "1486.6",
        "150",
        "1e37",
        "1e37",
        "1e37",
        "1e37",
        "FAT",
        "20",
        "1",
        "4.5",
        "1e37",
        "1e37",
        "1e37",
        "1e37",
        "1e37",
        "C",
        "1s",
        "-1",
        "Kinetic Energy",
        "eV",
        "1200",
        "0.1",
        "1",
        "Intensity",
        "d",
        "pulse counting",
        "0.1",
        "2",
        "0",
        "0",
        "0",
        "0",
        "0",
        "3",
        "100",
        "120",
        "100",
        "110",
        "120",
    ]
    .iter()
    .map(|line| line.to_string())
    .collect()
}

fn file(header: Vec<String>, block: Vec<String>) -> String {
    let mut lines = header;
    lines.extend(block);
    lines.push("end of experiment".to_string());
    lines.join("\r\n") + "\r\n"
}

fn parse(text: &str) -> Result<plotx::vamas::VamasLayout, VamasError> {
    parse_vamas(text, &numbers(text))
}

#[test]
fn a_counted_kinetic_block_is_laid_out() {
    let text = file(header_lines("1"), block_lines());
    let layout = parse(&text).unwrap();
    assert_eq!(
        layout.header,
        VamasHeader {
            variable_count: 0,
            variables_start: 11,
            block_count: 1,
            block_start: 16,
        }
    );
    assert_eq!(
        layout.blocks,
        vec![Some(VamasBlock {
            start: 16,
            comment_start: 26,
            comment_count: 1,
            values_start: 28,
            fields_start: 28,
            ordinate_count: 1,
            signal_line: 54,
            payload_start: 65,
            payload_count: 3,
            point_count: 3,
            kind: EnergyKind::Kinetic,
            counted: true,
        })]
    );
}

fn with_block_line(index: usize, value: &str) -> String {
    let mut block = block_lines();
    block[index] = value.to_string();
    file(header_lines("1"), block)
}

#[test]
fn a_rate_in_binding_energy_needs_no_dwell_time() {
    let mut block = block_lines();
    block[31] = "Binding Energy".to_string();
    block[37] = "c/s".to_string();
    block[38] = "analogue".to_string();
    block[39] = "1e37".to_string();
    let text = file(header_lines("1"), block);
    let layout = parse(&text).unwrap();
    let region = layout.blocks[0].unwrap();
    assert_eq!(region.kind, EnergyKind::Binding);
    assert!(!region.counted);
}

#[test]
fn a_block_of_another_technique_is_skipped() {
    let mut aes = block_lines();
    aes[0] = "Auger".to_string();
    aes[11] = "AES diff".to_string();
    let mut lines = header_lines("2");
    lines.extend(aes);
    lines.extend(block_lines());
    let text = lines.join("\n");
    let layout = parse(&text).unwrap();
    assert_eq!(layout.blocks.len(), 2);
    assert_eq!(layout.blocks[0], None);
    assert_eq!(layout.blocks[1].unwrap().start, 68);
}

#[test]
fn a_file_without_an_xps_block_is_refused() {
    let text = with_block_line(11, "AES diff");
    assert_eq!(parse(&text), Err(VamasError::NoXpsRegion));
}

#[test]
fn the_header_is_checked_first() {
    let text = file(header_lines("1"), block_lines()).replacen("VAMAS", "SAMAV", 1);
    assert_eq!(parse(&text), Err(VamasError::NotVamas));

    let text = file(header_lines("1"), block_lines()).replacen("NORM", "MAP", 1);
    assert_eq!(parse(&text), Err(VamasError::UnsupportedMode));

    let text = file(header_lines("2"), block_lines());
    assert_eq!(
        parse(&text),
        Err(VamasError::BlockCountMismatch {
            declared: 2,
            found: 1
        })
    );

    let text = file(header_lines("0"), block_lines());
    assert_eq!(parse(&text), Err(VamasError::NoBlocks));

    let text = file(header_lines("x"), block_lines());
    assert_eq!(
        parse(&text),
        Err(VamasError::InvalidNumber {
            block: None,
            field: VamasField::BlockCount
        })
    );
    assert_eq!(
        parse(VAMAS_MAGIC),
        Err(VamasError::Truncated {
            block: None,
            field: VamasField::HeaderIdentity
        })
    );
}

#[test]
fn block_descriptors_are_checked() {
    assert_eq!(
        parse(&with_block_line(32, "keV")),
        Err(VamasError::UnsupportedUnit { block: 16, line: 48 })
    );
    assert_eq!(
        parse(&with_block_line(34, "0")),
        Err(VamasError::ZeroIncrement { block: 16 })
    );
    assert_eq!(
        parse(&with_block_line(35, "0")),
        Err(VamasError::NoOrdinates { block: 16 })
    );
    assert_eq!(
        parse(&with_block_line(13, "inf")),
        Err(VamasError::NonFiniteNumber {
            block: Some(16),
            field: VamasField::SourceEnergy
        })
    );
    assert_eq!(
        parse(&with_block_line(40, "many")),
        Err(VamasError::InvalidNumber {
            block: Some(16),
            field: VamasField::ScanCount
        })
    );
    assert_eq!(
        parse(&with_block_line(31, "Time")),
        Err(VamasError::UnsupportedAbscissa { block: 16, line: 47 })
    );
    assert_eq!(
        parse(&with_block_line(10, "Number Steps : 5")),
        Err(VamasError::StepsMismatch { block: 16 })
    );
    assert_eq!(
        parse(&with_block_line(38, "analogue")),
        Err(VamasError::UnknownIntensity { block: 16 })
    );
    assert_eq!(
        parse(&with_block_line(39, "1e37")),
        Err(VamasError::MissingCpsScale { block: 16 })
    );
    let mut block = block_lines();
    block[46] = "1".to_string();
    block.truncate(50);
    let text = file(header_lines("1"), block);
    assert_eq!(parse(&text), Err(VamasError::TooFewPoints { block: 16 }));
}

#[test]
fn values_must_divide_and_nothing_may_follow_them() {
    let mut block = block_lines();
    block[35] = "2".to_string();
    block.insert(37, "Background".to_string());
    block.insert(38, "d".to_string());
    let text = file(header_lines("1"), block);
    assert_eq!(parse(&text), Err(VamasError::NotDivisible { block: 16 }));

    let mut block = block_lines();
    block.push("42".to_string());
    let text = file(header_lines("1"), block);
    assert_eq!(
        parse(&text),
        Err(VamasError::UnparsedField { block: 16, line: 68 })
    );
}

#[test]
fn a_truncated_block_names_the_missing_field() {
    let mut block = block_lines();
    block.truncate(50);
    let mut lines = header_lines("1");
    lines.extend(block);
    let text = lines.join("\n");
    assert_eq!(
        parse(&text),
        Err(VamasError::Truncated {
            block: Some(16),
            field: VamasField::OrdinateValue
        })
    );

    let mut block = block_lines();
    block[45] = "99999999999999999999".to_string();
    let text = file(header_lines("1"), block);
    assert_eq!(
        parse(&text),
        Err(VamasError::InvalidNumber {
            block: Some(16),
            field: VamasField::AdditionalCount
        })
    );

    let mut block = block_lines();
    block[45] = "6148914691236517206".to_string();
    let text = file(header_lines("1"), block);
    assert_eq!(
        parse(&text),
        Err(VamasError::AdditionalOverflow { block: 16 })
    );
}

#[test]
fn comments_are_found_by_prefix() {
    let text = file(header_lines("1"), block_lines());
    let lines = split_lines(&text);
    let prefix: Vec<char> = "Number Steps :".chars().collect();
    let value: String = comment(&lines, 26, 1, &prefix).unwrap().iter().collect();
    assert_eq!(value, "2");
    let missing: Vec<char> = "Location ID :".chars().collect();
    assert!(comment(&lines, 26, 1, &missing).is_none());
}

#[test]
fn position_variables_are_found_by_label() {
    let mut header = header_lines("1");
    header[10] = "4".to_string();
    let variables = ["Stage X-position", "mm", "Position Y", "mm", "Tilt", "deg", "z position", "mm"];
    for (offset, line) in variables.iter().enumerate() {
        header.insert(11 + offset, line.to_string());
    }
    let mut block = block_lines();
    for value in ["1.5", "2.5", "30", "-0.5"].iter().rev() {
        block.insert(12, value.to_string());
    }
    let text = file(header, block);
    let lines = split_lines(&text);
    let layout = parse(&text).unwrap();
    assert_eq!(layout.header.variable_count, 4);
    assert_eq!(parse_header(&lines), Ok(layout.header));
    // "Stage X-position" normalizes to "stagexposition", which names no axis.
    assert_eq!(position_variables(&lines, &layout.header), None);

    let mut header = header_lines("1");
    header[10] = "3".to_string();
    let variables = ["X position", "mm", "Position_Y", "mm", "z-Position", "mm"];
    for (offset, line) in variables.iter().enumerate() {
        header.insert(11 + offset, line.to_string());
    }
    let mut block = block_lines();
    for value in ["1.5", "2.5", "-0.5"].iter().rev() {
        block.insert(12, value.to_string());
    }
    let text = file(header, block);
    let lines = split_lines(&text);
    let layout = parse(&text).unwrap();
    assert_eq!(position_variables(&lines, &layout.header), Some((0, 1, 2)));
}

#[test]
fn comment_numbers_and_metadata_follow_their_prefixes() {
    let text = file(header_lines("1"), block_lines());
    let lines = split_lines(&text);
    let steps: Vec<char> = "Number Steps :".chars().collect();
    assert_eq!(comment_usize(&lines, 26, 1, &steps), Some(2));
    let missing: Vec<char> = "Location ID :".chars().collect();
    assert_eq!(comment_usize(&lines, 26, 1, &missing), None);
    let number: Vec<char> = "Number".chars().collect();
    // "Steps : 2" is no number.
    assert_eq!(comment_usize(&lines, 26, 1, &number), None);

    let chars = |text: &str| -> Vec<char> { text.chars().collect() };
    let fields = vec![
        (chars("location"), chars("Location ID :")),
        (chars("steps"), chars("Number Steps :")),
        (chars("count"), chars("Number")),
    ];
    let found: Vec<(String, String)> = metadata_from_comments(&lines, 26, 1, &fields)
        .into_iter()
        .map(|(key, value)| (key.into_iter().collect(), value.into_iter().collect()))
        .collect();
    assert_eq!(
        found,
        vec![
            ("steps".to_string(), "2".to_string()),
            ("count".to_string(), "Steps : 2".to_string()),
        ]
    );
}

fn message_of(text: &str) -> String {
    let lines = split_lines(text);
    let error = parse(text).unwrap_err();
    let header = parse_header(&lines).ok();
    error.message(&lines, header)
}

#[test]
fn refused_files_are_reported_in_words() {
    assert_eq!(message_of(""), "not an ISO 14976 VAMAS file");
    let text = file(header_lines("1"), block_lines()).replacen("NORM", "MAP", 1);
    assert_eq!(message_of(&text), "only NORM/REGULAR VAMAS experiments are supported");
    let text = file(header_lines("2"), block_lines());
    assert_eq!(
        message_of(&text),
        "VAMAS declares 2 blocks but 1 trusted block boundaries were found"
    );
    assert_eq!(message_of(&file(header_lines("0"), block_lines())), "VAMAS file contains no blocks");
    assert_eq!(
        message_of(&file(header_lines("x"), block_lines())),
        "VAMAS block \"header\" has an invalid block count"
    );
    assert_eq!(
        message_of(VAMAS_MAGIC),
        "VAMAS block \"header\" is truncated before header identity"
    );
    assert_eq!(
        message_of(&with_block_line(32, "keV")),
        "VAMAS block \"C 1s\" uses unsupported energy unit \"keV\""
    );
    assert_eq!(
        message_of(&with_block_line(11, "AES diff")),
        "VAMAS file contains no readable XPS region"
    );
}

#[test]
fn error_texts_are_assembled_from_their_parts() {
    let chars = |text: &str| -> Vec<char> { text.chars().collect() };
    let error = VamasError::UnparsedField { block: 16, line: 60 };
    assert_eq!(
        error.describe(&Vec::new(), &chars("\"C 1s\""), &chars("\"junk\"")),
        "VAMAS block \"C 1s\" contains an unparsed field \"junk\" at block row 45"
    );
    let error = VamasError::NonFiniteNumber { block: Some(16), field: VamasField::DwellTime };
    assert_eq!(
        error.describe(&chars("dwell time"), &chars("\"C 1s\""), &Vec::new()),
        "VAMAS block \"C 1s\" has a non-finite dwell time"
    );
    assert_eq!(
        VamasError::MissingCpsScale { block: 3 }.describe(&Vec::new(), &chars("\"O 1s\""), &Vec::new()),
        "VAMAS block \"O 1s\" lacks dwell time or scan count for CPS conversion"
    );
}

#[test]
fn crlf_files_read_like_lf_files() {
    let text = file(header_lines("1"), block_lines());
    let crlf = text.replace('\n', "\r\n");
    assert_eq!(parse(&crlf), parse(&text));
    let broken = with_block_line(32, "keV");
    assert_eq!(parse(&broken.replace('\n', "\r\n")), parse(&broken));
}

#[test]
fn blocks_become_regions_grouped_by_position() {
    let label = |text: &str| -> Option<Vec<char>> { Some(text.chars().collect()) };
    let blocks = vec![label("A"), None, label("B"), label("A"), None, label("C")];
    let plan = import_plan(&blocks);
    assert_eq!(
        plan.regions,
        vec![
            RegionPlan { block: 0, region: 1, measurement: 1 },
            RegionPlan { block: 2, region: 2, measurement: 2 },
            RegionPlan { block: 3, region: 3, measurement: 1 },
            RegionPlan { block: 5, region: 4, measurement: 3 },
        ]
    );
    let measurements: Vec<String> = plan.measurements.iter().map(|l| l.iter().collect()).collect();
    assert_eq!(measurements, vec!["A", "B", "C"]);
    assert_eq!(
        plan.warnings,
        vec!["Skipped non-XPS VAMAS block 2", "Skipped non-XPS VAMAS block 5"]
    );
    assert!(import_plan(&Vec::new()).regions.is_empty());
}

#[test]
fn measurement_positions_are_listed_in_label_order() {
    let labels: Vec<Vec<char>> =
        ["Spot 2", "Spot 10", "Area", "Spot 1", "Spot"].iter().map(|l| l.chars().collect()).collect();
    assert_eq!(measurement_order(&labels), vec![2, 4, 3, 1, 0]);
    let ties: Vec<Vec<char>> = ["b", "a", "b", "a"].iter().map(|l| l.chars().collect()).collect();
    assert_eq!(measurement_order(&ties), vec![1, 3, 0, 2]);
    assert!(measurement_order(&Vec::new()).is_empty());
    // Characters beyond ASCII order by code point, as text order does.
    let wide: Vec<Vec<char>> = ["é", "z", "Z"].iter().map(|l| l.chars().collect()).collect();
    assert_eq!(measurement_order(&wide), vec![2, 1, 0]);
}
