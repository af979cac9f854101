use resonance_parrot::display::{set_vbar_meter_ch_label, set_vbar_meter_spectrum_label, usize_to_string};
use resonance_parrot::errors::{
    ResonanceError, ResonanceParrotError, ResonanceParrotWarning, ResonanceWarning, WavFileError,
};
use resonance_parrot::resonance::{assemble_spectrum, spn_label, split_pitch_range, split_table, SPN_NUM};

fn band_table() -> Vec<u64> {
    (0..SPN_NUM as u64).collect()
}

#[test]
fn split_sizes_follow_the_ceiling_rule() {
    assert_eq!(split_pitch_range(97, 1), 97);
    assert_eq!(split_pitch_range(97, 3), 33);
    assert_eq!(split_pitch_range(97, 7), 14);
    let parts = split_table(&band_table(), 3);
    assert_eq!(parts.len(), 3);
    assert_eq!(parts[0].len(), 33);
    assert_eq!(parts[1].len(), 33);
    assert_eq!(parts[2].len(), 31);
    let parts7 = split_table(&band_table(), 7);
    assert_eq!(parts7.len(), 7);
    for i in 0..6 {
        assert_eq!(parts7[i].len(), 14);
    }
    assert_eq!(parts7[6].len(), 13);
}

#[test]
fn split_reassembles_identically_for_any_thread_count() {
    // Worker-pool determinism, the partition half: however many threads
    // share the table, concatenating the sub-ranges in order gives the
    // same band sequence.
    let table = band_table();
    let whole: Vec<u64> = split_table(&table, 1).concat();
    for t in [1usize, 3, 7] {
        let parts = split_table(&table, t);
        let joined: Vec<u64> = parts.concat();
        assert_eq!(joined, table);
        assert_eq!(joined, whole);
    }
}

#[test]
fn split_one_band_per_thread() {
    let parts = split_table(&band_table(), 97);
    assert_eq!(parts.len(), 97);
    for (i, p) in parts.iter().enumerate() {
        assert_eq!(p, &vec![i as u64]);
    }
}

#[test]
fn assemble_gathers_each_channel_in_report_order() {
    let reports: Vec<(usize, Vec<Vec<u64>>)> = vec![
        (0, vec![vec![1, 2], vec![3]]),
        (1, vec![vec![10]]),
        (0, vec![vec![4]]),
        (1, vec![vec![20], vec![30]]),
    ];
    let spectrum = assemble_spectrum(2, &reports);
    assert_eq!(spectrum.len(), 2);
    assert_eq!(spectrum[0], vec![vec![1, 2], vec![3], vec![4]]);
    assert_eq!(spectrum[1], vec![vec![10], vec![20], vec![30]]);
}

#[test]
fn assemble_keeps_worker_partitions_in_construction_order() {
    // Worker-pool determinism, the reassembly half: partial blocks from
    // a split drained in construction order rebuild the single-threaded
    // spectrum.
    let table = band_table();
    let reference: Vec<Vec<u64>> = table.iter().map(|b| vec![*b]).collect();
    for t in [1usize, 3, 7] {
        let parts = split_table(&table, t);
        let reports: Vec<(usize, Vec<Vec<u64>>)> = parts
            .iter()
            .map(|p| (0usize, p.iter().map(|b| vec![*b]).collect()))
            .collect();
        let spectrum = assemble_spectrum(1, &reports);
        assert_eq!(spectrum[0], reference);
    }
}

#[test]
fn spn_labels_name_the_octaves() {
    assert_eq!(spn_label(0), "A0");
    assert_eq!(spn_label(1), "A#/Bb0");
    assert_eq!(spn_label(2), "B0");
    assert_eq!(spn_label(3), "C1");
    assert_eq!(spn_label(48), "A4");
    assert_eq!(spn_label(96), "A8");
}

#[test]
fn decimal_rendering_is_exact() {
    assert_eq!(usize_to_string(0), "0");
    assert_eq!(usize_to_string(7), "7");
    assert_eq!(usize_to_string(10), "10");
    assert_eq!(usize_to_string(44100), "44100");
}

#[test]
fn channel_labels_match_the_layout() {
    assert_eq!(set_vbar_meter_ch_label(0, 1), "  Mono:");
    assert_eq!(set_vbar_meter_ch_label(0, 2), "/ L_ch  ");
    assert_eq!(set_vbar_meter_ch_label(1, 2), "\\ R_ch  ");
    assert_eq!(set_vbar_meter_ch_label(0, 5), "/ 1_ch  ");
    assert_eq!(set_vbar_meter_ch_label(2, 5), "| 3_ch  ");
    assert_eq!(set_vbar_meter_ch_label(4, 5), "\\ 5_ch  ");
}

#[test]
fn spectrum_labels_bracket_the_block() {
    assert_eq!(set_vbar_meter_spectrum_label(0, 3, "A2"), "\\ A2 ");
    assert_eq!(set_vbar_meter_spectrum_label(1, 3, "B2"), "| B2 ");
    assert_eq!(set_vbar_meter_spectrum_label(2, 3, "C3"), "/ C3 ");
}

#[test]
fn errors_carry_their_message() {
    assert_eq!(WavFileError::new("bad header").message, "bad header");
    assert_eq!(ResonanceError::new("bank").message(), "bank");
    assert_eq!(ResonanceWarning::new("warn").message, "warn");
    assert_eq!(ResonanceParrotError::new("app").message(), "app");
    assert_eq!(ResonanceParrotWarning::new("note").message, "note");
}
