use libcosmic::widget::text_input::value::Value;

const SAMPLES: [&str; 12] = [
    "",
    "a",
    "hello world",
    "  leading and trailing  ",
    "e\u{301}",
    "a\u{310}e\u{301}o\u{308}\u{332}",
    "a\r\nb",
    "\u{1F1FA}\u{1F1F8}",
    "\u{1F1F7}\u{1F1FA}\u{1F1F8}\u{1F1F9}",
    "\u{1F468}\u{200D}\u{1F469}\u{200D}\u{1F467}",
    "The quick (\"brown\")  fox can't jump 32.3 feet, right?",
    "\u{5D0}\u{5D1} \u{3042}\u{3044}\t\u{2003}x",
];

fn clusters(value: &Value) -> Vec<String> {
    (0..value.len()).map(|i| value.select(i, i + 1).to_string()).collect()
}

#[test]
fn rendering_a_new_value_gives_the_string_back() {
    for sample in SAMPLES {
        assert_eq!(Value::new(sample).to_string(), sample);
    }
}

#[test]
fn length_counts_grapheme_clusters() {
    assert_eq!(Value::new("").len(), 0);
    assert_eq!(Value::new("hello world").len(), 11);
    assert_eq!(Value::new("e\u{301}").len(), 1);
    assert_eq!(Value::new("a\u{310}e\u{301}o\u{308}\u{332}").len(), 3);
    assert_eq!(Value::new("a\r\nb").len(), 3);
    assert_eq!(Value::new("\u{1F1FA}\u{1F1F8}").len(), 1);
    assert_eq!(Value::new("\u{1F1F7}\u{1F1FA}\u{1F1F8}\u{1F1F9}").len(), 2);
    assert_eq!(Value::new("\u{1F468}\u{200D}\u{1F469}\u{200D}\u{1F467}").len(), 1);
}

#[test]
fn a_new_value_holds_the_clusters_in_order() {
    let value = Value::new("a\u{310}e\u{301}o\u{308}\u{332}\r\n");
    assert_eq!(
        clusters(&value),
        vec!["a\u{310}", "e\u{301}", "o\u{308}\u{332}", "\r\n"]
    );
}

#[test]
fn is_empty_goes_with_the_length_and_the_text() {
    for sample in SAMPLES {
        let value = Value::new(sample);
        assert_eq!(value.is_empty(), value.len() == 0);
        assert_eq!(value.is_empty(), sample.is_empty());
    }
    assert!(Value::new("").is_empty());
    assert!(!Value::new(" ").is_empty());
}

#[test]
fn the_default_value_is_empty() {
    let value = Value::default();
    assert!(value.is_empty());
    assert_eq!(value.len(), 0);
    assert_eq!(value.to_string(), "");
    assert_eq!(value, Value::new(""));
}

#[test]
fn a_clone_is_equal_and_independent() {
    let value = Value::new("e\u{301}x");
    let mut copy = value.clone();
    assert_eq!(copy, value);
    copy.remove(0);
    assert_eq!(copy.to_string(), "x");
    assert_eq!(value.to_string(), "e\u{301}x");
    assert_ne!(copy, value);
}

#[test]
fn secure_keeps_the_length_and_masks_every_cluster() {
    for sample in SAMPLES {
        let value = Value::new(sample);
        let secured = value.secure();
        assert_eq!(secured.len(), value.len());
        for cluster in clusters(&secured) {
            assert_eq!(cluster, "\u{2022}");
        }
        assert_eq!(secured.to_string(), "\u{2022}".repeat(value.len()));
    }
}

#[test]
fn secure_hides_multi_codepoint_clusters_behind_one_mask_each() {
    let secured = Value::new("\u{1F1FA}\u{1F1F8}e\u{301}").secure();
    assert_eq!(secured.len(), 2);
    assert_eq!(secured.to_string(), "\u{2022}\u{2022}");
}

#[test]
fn select_returns_the_range() {
    let value = Value::new("hello world");
    assert_eq!(value.select(0, 5).to_string(), "hello");
    assert_eq!(value.select(6, 11).to_string(), "world");
    assert_eq!(value.select(3, 3).to_string(), "");
    assert_eq!(value.select(0, 11), value);
}

#[test]
fn select_counts_clusters_not_characters() {
    let value = Value::new("a\u{310}e\u{301}o\u{308}\u{332}");
    assert_eq!(value.select(1, 2).to_string(), "e\u{301}");
    assert_eq!(value.select(1, 3).to_string(), "e\u{301}o\u{308}\u{332}");
}

#[test]
fn select_holds_an_end_past_the_length_to_the_length() {
    let value = Value::new("hello world");
    for start in 0..14 {
        assert_eq!(value.select(start, 12), value.select(start, 11));
        assert_eq!(value.select(start, usize::MAX), value.select(start, 11));
    }
    assert_eq!(value.select(6, 100).to_string(), "world");
}

#[test]
fn select_with_crossed_bounds_is_empty() {
    let value = Value::new("hello world");
    assert!(value.select(5, 2).is_empty());
    assert!(value.select(11, 0).is_empty());
    assert!(value.select(100, 3).is_empty());
    assert!(value.select(usize::MAX, 0).is_empty());
    assert!(value.select(100, 200).is_empty());
    assert!(Value::new("").select(1, 0).is_empty());
}

#[test]
fn until_is_select_from_the_start() {
    let value = Value::new("hello world");
    for index in 0..14 {
        assert_eq!(value.until(index), value.select(0, index));
    }
    assert_eq!(value.until(5).to_string(), "hello");
    assert_eq!(value.until(0).to_string(), "");
    assert_eq!(value.until(100), value);
}

#[test]
fn insert_puts_a_character_at_a_cluster_position() {
    let mut value = Value::new("hllo");
    value.insert(1, 'e');
    assert_eq!(value.to_string(), "hello");
    assert_eq!(value.len(), 5);
    value.insert(0, '>');
    assert_eq!(value.to_string(), ">hello");
    value.insert(6, '!');
    assert_eq!(value.to_string(), ">hello!");
    assert_eq!(value.len(), 7);
}

#[test]
fn insert_into_an_empty_value() {
    let mut value = Value::new("");
    value.insert(0, 'x');
    assert_eq!(value.to_string(), "x");
    assert_eq!(value.len(), 1);
}

#[test]
fn insert_joins_a_combining_mark_to_its_base() {
    let mut value = Value::new("e");
    value.insert(1, '\u{301}');
    assert_eq!(value.len(), 1);
    assert_eq!(value.to_string(), "e\u{301}");
    assert_eq!(value, Value::new("e\u{301}"));
}

#[test]
fn insert_joins_two_regional_indicators_into_a_flag() {
    let mut value = Value::new("\u{1F1FA}");
    assert_eq!(value.len(), 1);
    value.insert(1, '\u{1F1F8}');
    assert_eq!(value.len(), 1);
    assert_eq!(value.to_string(), "\u{1F1FA}\u{1F1F8}");
}

#[test]
fn insert_counts_positions_in_clusters() {
    let mut value = Value::new("e\u{301}o\u{308}");
    value.insert(1, '-');
    assert_eq!(value.to_string(), "e\u{301}-o\u{308}");
    assert_eq!(value.len(), 3);
}

#[test]
fn insert_segments_the_whole_text_anew() {
    let mut value = Value::new("\rb");
    assert_eq!(value.len(), 2);
    value.insert(1, '\n');
    assert_eq!(value.len(), 2);
    assert_eq!(clusters(&value), vec!["\r\n", "b"]);
    assert_eq!(value, Value::new("\r\nb"));
}

#[test]
fn insert_many_puts_the_text_in() {
    let mut value = Value::new("held");
    value.insert_many(3, Value::new("lo worl"));
    assert_eq!(value.to_string(), "hello world");
    assert_eq!(value.len(), 11);
    value.insert_many(0, Value::new(">> "));
    assert_eq!(value.to_string(), ">> hello world");
    value.insert_many(14, Value::new("!"));
    assert_eq!(value.to_string(), ">> hello world!");
    value.insert_many(5, Value::new(""));
    assert_eq!(value.to_string(), ">> hello world!");
}

#[test]
fn insert_many_joins_the_clusters_at_the_seams() {
    let mut value = Value::new("e");
    value.insert_many(1, Value::new("\u{301}"));
    assert_eq!(value.to_string(), "e\u{301}");
    assert_eq!(value.len(), 1);
    assert_eq!(clusters(&value), vec!["e\u{301}"]);
    assert_eq!(value, Value::new("e\u{301}"));
}

#[test]
fn insert_many_joins_at_both_seams() {
    let mut value = Value::new("\r\u{1F1F8}");
    assert_eq!(value.len(), 2);
    value.insert_many(1, Value::new("\n-\u{1F1FA}"));
    assert_eq!(value.to_string(), "\r\n-\u{1F1FA}\u{1F1F8}");
    assert_eq!(clusters(&value), vec!["\r\n", "-", "\u{1F1FA}\u{1F1F8}"]);
}

#[test]
fn insert_many_gives_the_clusters_of_the_joined_text() {
    for sample in SAMPLES {
        for other in SAMPLES {
            let len = Value::new(sample).len();
            for index in 0..=len {
                let mut value = Value::new(sample);
                let expected = format!(
                    "{}{}{}",
                    value.until(index).to_string(),
                    other,
                    value.select(index, len).to_string()
                );
                value.insert_many(index, Value::new(other));
                assert_eq!(value, Value::new(&expected));
            }
        }
    }
}

#[test]
fn remove_deletes_one_cluster() {
    let mut value = Value::new("a\u{310}e\u{301}o\u{308}\u{332}");
    value.remove(1);
    assert_eq!(value.to_string(), "a\u{310}o\u{308}\u{332}");
    assert_eq!(value.len(), 2);
    value.remove(1);
    assert_eq!(value.to_string(), "a\u{310}");
    value.remove(0);
    assert!(value.is_empty());
}

#[test]
fn remove_joins_the_neighbours() {
    let mut value = Value::new("\ra\n");
    assert_eq!(value.len(), 3);
    value.remove(1);
    assert_eq!(value.to_string(), "\r\n");
    assert_eq!(value.len(), 1);
    assert_eq!(clusters(&value), vec!["\r\n"]);
    assert_eq!(value, Value::new("\r\n"));
}

#[test]
fn remove_many_deletes_the_range() {
    let mut value = Value::new("hello world");
    value.remove_many(5, 11);
    assert_eq!(value.to_string(), "hello");
    value.remove_many(2, 2);
    assert_eq!(value.to_string(), "hello");
    value.remove_many(0, 1);
    assert_eq!(value.to_string(), "ello");
    value.remove_many(0, 4);
    assert!(value.is_empty());
}

#[test]
fn remove_many_joins_the_sides_of_the_range() {
    let mut value = Value::new("\u{1F1FA}-x-\u{1F1F8}");
    assert_eq!(value.len(), 5);
    value.remove_many(1, 4);
    assert_eq!(value.len(), 1);
    assert_eq!(value, Value::new("\u{1F1FA}\u{1F1F8}"));
}

#[test]
fn remove_many_gives_the_clusters_of_the_text_that_is_left() {
    for sample in SAMPLES {
        let len = Value::new(sample).len();
        for start in 0..=len {
            for end in start..=len {
                let mut value = Value::new(sample);
                let expected = format!(
                    "{}{}",
                    value.until(start).to_string(),
                    value.select(end, len).to_string()
                );
                value.remove_many(start, end);
                assert_eq!(value, Value::new(&expected));
            }
        }
    }
}

#[test]
fn removing_a_range_and_inserting_it_back_restores_the_value() {
    for sample in SAMPLES {
        let whole = Value::new(sample);
        let len = whole.len();
        let all = clusters(&whole);
        for start in 0..=len {
            for end in start..=len {
                let mut value = whole.clone();
                let removed = value.select(start, end);
                value.remove_many(start, end);
                // The law speaks of removals that leave the clusters around
                // the gap as they were.
                let mut plain = all[..start].to_vec();
                plain.extend_from_slice(&all[end..]);
                if clusters(&value) == plain {
                    assert_eq!(value.len(), len - (end - start));
                    value.insert_many(start, removed);
                    assert_eq!(value, whole);
                }
            }
        }
    }
}

#[test]
fn removing_a_range_restores_nothing_where_its_neighbours_join() {
    let whole = Value::new("\ra\n");
    let mut value = whole.clone();
    let removed = value.select(1, 2);
    value.remove_many(1, 2);
    assert_eq!(value.len(), 1);
    value.insert_many(1, removed);
    assert_eq!(value.to_string(), "\r\na");
    assert_ne!(value, whole);
}

#[test]
fn inserting_clusters_and_removing_them_restores_the_value() {
    let whole = Value::new("hello");
    for index in 0..=5 {
        let mut value = whole.clone();
        value.insert_many(index, Value::new("e\u{301}\r\n"));
        assert_eq!(value.len(), 7);
        assert_eq!(value.select(index, index + 2), Value::new("e\u{301}\r\n"));
        value.remove_many(index, index + 2);
        assert_eq!(value, whole);
    }
}

#[test]
fn inserting_nothing_leaves_the_value_as_it_is() {
    for sample in SAMPLES {
        let whole = Value::new(sample);
        for index in 0..=whole.len() {
            let mut value = whole.clone();
            value.insert_many(index, Value::new(""));
            assert_eq!(value, whole);
            let mut value = whole.clone();
            value.insert_many(index, Value::default());
            assert_eq!(value, whole);
        }
    }
    let masks = Value::new("abc").secure();
    let mut value = masks.clone();
    value.insert_many(2, Value::new(""));
    assert_eq!(value, masks);
    let range = Value::new("a\r\nb").select(1, 3);
    let mut value = range.clone();
    value.insert_many(1, Value::new(""));
    assert_eq!(value, range);
}

#[test]
fn removing_nothing_leaves_the_value_as_it_is() {
    for sample in SAMPLES {
        let whole = Value::new(sample);
        for index in 0..=whole.len() {
            let mut value = whole.clone();
            value.remove_many(index, index);
            assert_eq!(value, whole);
        }
    }
    let masks = Value::new("abc").secure();
    let mut value = masks.clone();
    value.remove_many(1, 1);
    assert_eq!(value, masks);
    let mut value = Value::default();
    value.remove_many(0, 0);
    assert_eq!(value, Value::default());
}

#[test]
fn every_mutation_leaves_the_clusters_of_the_text() {
    let mut value = Value::new("a\u{310}\rb");
    value.insert(2, '\n');
    assert_eq!(value.len(), 3);
    assert_eq!(value, Value::new(&value.to_string()));
    value.insert_many(1, Value::new("\u{301}\u{1F1FA}"));
    assert_eq!(value, Value::new(&value.to_string()));
    value.insert_many(2, Value::new("\u{1F1F8}"));
    assert_eq!(value, Value::new(&value.to_string()));
    value.remove(0);
    assert_eq!(value, Value::new(&value.to_string()));
    value.remove_many(1, 2);
    assert_eq!(value, Value::new(&value.to_string()));
    assert_eq!(value.to_string(), "\u{1F1FA}\u{1F1F8}b");
}

#[test]
fn previous_start_of_word_finds_the_word_before() {
    let value = Value::new("hello world");
    assert_eq!(value.previous_start_of_word(8), 6);
}

#[test]
fn previous_start_of_word_at_each_position() {
    let value = Value::new("hello world");
    let expected = [0, 0, 0, 0, 0, 0, 0, 6, 6, 6, 6, 6];
    for (index, start) in expected.iter().enumerate() {
        assert_eq!(value.previous_start_of_word(index), *start);
    }
}

#[test]
fn previous_start_of_word_skips_blank_pieces() {
    let value = Value::new("one  two \t ");
    assert_eq!(value.previous_start_of_word(11), 5);
    assert_eq!(value.previous_start_of_word(5), 0);
    assert_eq!(value.previous_start_of_word(4), 0);
}

#[test]
fn previous_start_of_word_without_a_word_is_zero() {
    let value = Value::new("   ");
    for index in 0..5 {
        assert_eq!(value.previous_start_of_word(index), 0);
    }
}

#[test]
fn previous_start_of_word_counts_clusters() {
    let value = Value::new("e\u{301}t\u{301} o\u{308}u");
    assert_eq!(value.len(), 5);
    assert_eq!(value.previous_start_of_word(5), 3);
    assert_eq!(value.previous_start_of_word(3), 0);
    assert_eq!(value.previous_start_of_word(2), 0);
}

#[test]
fn previous_start_of_word_counts_back_from_an_index_past_the_end() {
    let value = Value::new("hello world");
    assert_eq!(value.previous_start_of_word(20), 15);
}

#[test]
fn previous_start_of_word_is_a_place_among_the_clusters_of_the_value() {
    // The sign takes the space behind it along into one cluster, and the
    // word boundaries cut that cluster in two.
    let value = Value::new("b \u{600} ");
    assert_eq!(value.len(), 3);
    assert_eq!(value.previous_start_of_word(3), 2);
    assert_eq!(value.previous_start_of_word(2), 0);
    assert_eq!(value.previous_start_of_word(1), 0);
}

#[test]
fn previous_start_of_word_in_a_cluster_that_a_word_boundary_cuts() {
    let value = Value::new("\u{600} ");
    assert_eq!(value.len(), 1);
    assert_eq!(value.previous_start_of_word(0), 0);
    assert_eq!(value.previous_start_of_word(1), 0);

    let value = Value::new(" \u{E33}");
    assert_eq!(value.len(), 1);
    assert_eq!(value.previous_start_of_word(1), 0);
}

#[test]
fn previous_start_of_word_lies_before_the_index() {
    for sample in SAMPLES {
        let value = Value::new(sample);
        assert_eq!(value.previous_start_of_word(0), 0);
        for index in 1..value.len() + 3 {
            assert!(value.previous_start_of_word(index) < index);
        }
    }
}

#[test]
fn previous_start_of_word_is_the_start_of_a_cluster_of_the_text_before() {
    for sample in SAMPLES {
        let value = Value::new(sample);
        for index in 0..=value.len() {
            let position = value.previous_start_of_word(index);
            assert!(position <= value.len());
            let head = value.until(position).to_string();
            assert!(value.until(index).to_string().starts_with(&head));
            if index > 0 {
                assert!(position < index);
            }
        }
    }
}

#[test]
fn next_end_of_word_is_a_place_among_the_clusters_of_the_value() {
    // One cluster that the word boundaries cut in two: the space and the
    // vowel sign that joins it.
    let value = Value::new(" \u{E33}");
    assert_eq!(value.len(), 1);
    assert_eq!(value.next_end_of_word(0), 1);
    assert_eq!(value.next_end_of_word(1), 1);

    let value = Value::new("b \u{600} x");
    assert_eq!(value.len(), 4);
    assert_eq!(value.next_end_of_word(0), 1);
    assert_eq!(value.next_end_of_word(1), 3);
    assert_eq!(value.next_end_of_word(2), 3);
    assert_eq!(value.next_end_of_word(3), 4);
}

#[test]
fn next_end_of_word_lies_between_the_index_and_the_length() {
    for sample in SAMPLES {
        let value = Value::new(sample);
        for index in 0..value.len() + 3 {
            let position = value.next_end_of_word(index);
            assert!(position <= value.len());
            if index < value.len() {
                assert!(index < position);
            } else {
                assert_eq!(position, value.len());
            }
        }
    }
}

#[test]
fn next_end_of_word_finds_the_word_after() {
    let value = Value::new("hello world");
    assert_eq!(value.next_end_of_word(0), 5);
}

#[test]
fn next_end_of_word_at_each_position() {
    let value = Value::new("hello world");
    let expected = [5, 5, 5, 5, 5, 11, 11, 11, 11, 11, 11, 11];
    for (index, end) in expected.iter().enumerate() {
        assert_eq!(value.next_end_of_word(index), *end);
    }
}

#[test]
fn next_end_of_word_skips_blank_pieces() {
    let value = Value::new(" \t one  two");
    assert_eq!(value.next_end_of_word(0), 6);
    assert_eq!(value.next_end_of_word(6), 11);
    assert_eq!(value.next_end_of_word(7), 11);
}

#[test]
fn next_end_of_word_without_a_word_is_the_length() {
    let value = Value::new("one   ");
    assert_eq!(value.next_end_of_word(3), 6);
    assert_eq!(value.next_end_of_word(5), 6);
    assert_eq!(value.next_end_of_word(6), 6);
}

#[test]
fn next_end_of_word_past_the_end_is_the_length() {
    let value = Value::new("hello world");
    assert_eq!(value.next_end_of_word(12), 11);
    assert_eq!(value.next_end_of_word(usize::MAX), 11);
}

#[test]
fn next_end_of_word_counts_clusters() {
    let value = Value::new("e\u{301}t\u{301} o\u{308}u");
    assert_eq!(value.next_end_of_word(0), 2);
    assert_eq!(value.next_end_of_word(2), 5);
}

#[test]
fn word_navigation_in_an_empty_value_stays_at_zero() {
    let value = Value::new("");
    for index in [0, 1, 2, 17, usize::MAX] {
        assert_eq!(value.previous_start_of_word(index), 0);
        assert_eq!(value.next_end_of_word(index), 0);
    }
}

#[test]
fn word_navigation_works_on_a_secured_value() {
    // Every mask is a piece of its own between word boundaries.
    let secured = Value::new("hello world").secure();
    assert_eq!(secured.next_end_of_word(0), 1);
    assert_eq!(secured.next_end_of_word(4), 5);
    assert_eq!(secured.previous_start_of_word(11), 10);
    assert_eq!(secured.previous_start_of_word(1), 0);
}

#[test]
fn values_compare_by_their_clusters() {
    assert_eq!(Value::new("abc"), Value::new("abc"));
    assert_ne!(Value::new("abc"), Value::new("abd"));
    assert_ne!(Value::new("abc"), Value::new("ab"));
    let mut joined = Value::new("e");
    joined.insert_many(1, Value::new("\u{301}"));
    assert_eq!(joined, Value::new("e\u{301}"));
}

#[test]
fn a_value_can_be_printed_for_debugging() {
    let text = format!("{:?}", Value::new("ab"));
    assert!(text.contains("Value"));
    assert!(text.contains("\"a\""));
    assert!(text.contains("\"b\""));
}
