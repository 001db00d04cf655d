use nyaa_notifications::chunk::{
    calculate_single_size, calculate_total_parts, create_embeds_after_size, u64_to_bytes,
    EmbedField, LABEL_ALLOWANCE, MAX_CHUNKS, MAX_EMBED_SIZE,
};

fn field(name: &str, text: &[u8], inline: bool) -> EmbedField {
    EmbedField { name: name.as_bytes().to_vec(), text: text.to_vec(), inline }
}

#[test]
fn single_size_counts_names_texts_and_framing() {
    let fields = vec![field("Category", b"Anime", true), field("Size", b"1 GiB", true)];
    // 1 + (8 + 5) + (4 + 5)
    assert_eq!(calculate_single_size(&fields), 23);
}

#[test]
fn fitting_payload_is_one_message_with_colon() {
    let fields = vec![field("Category", b"Anime", true), field("Size", b"1 GiB", true)];
    let out = create_embeds_after_size(&fields);
    assert_eq!(out.len(), 1);
    assert_eq!(out[0].len(), 2);
    assert_eq!(out[0][0].name, b"Category:".to_vec());
    assert_eq!(out[0][0].text, b"Anime".to_vec());
    assert_eq!(out[0][1].name, b"Size".to_vec());
    assert_eq!(out[0][1].text, b"1 GiB".to_vec());
}

#[test]
fn total_parts_single_field_exact() {
    // cap = 1010 - 1 - 6 = 1003
    let fields = vec![field("A", &[b'x'; 2500], false)];
    assert_eq!(calculate_total_parts(&fields, MAX_EMBED_SIZE), 3);
    let exact = vec![field("A", &[b'x'; 1003], false)];
    assert_eq!(calculate_total_parts(&exact, MAX_EMBED_SIZE), 1);
    let one_more = vec![field("A", &[b'x'; 1004], false)];
    assert_eq!(calculate_total_parts(&one_more, MAX_EMBED_SIZE), 2);
    let empty = vec![field("A", b"", false)];
    assert_eq!(calculate_total_parts(&empty, MAX_EMBED_SIZE), 0);
}

#[test]
fn single_field_round_trip() {
    let text: Vec<u8> = (0..2500u32).map(|i| (i % 251) as u8).collect();
    let fields = vec![field("A", &text, false)];
    let out = create_embeds_after_size(&fields);
    assert_eq!(out.len(), 3);
    assert_eq!(out[0][0].name, b"A (1/3):".to_vec());
    assert_eq!(out[1][0].name, b"A (2/3):".to_vec());
    assert_eq!(out[2][0].name, b"A (3/3):".to_vec());
    let cap = MAX_EMBED_SIZE - 1 - LABEL_ALLOWANCE;
    assert_eq!(out[0][0].text.len(), cap);
    assert_eq!(out[1][0].text.len(), cap);
    assert_eq!(out[2][0].text.len(), 2500 - 2 * cap);
    let mut joined: Vec<u8> = Vec::new();
    for msg in &out {
        for f in msg {
            joined.extend_from_slice(&f.text);
        }
    }
    assert_eq!(joined, text);
}

#[test]
fn single_field_cutoff_drops_overflow() {
    // cap = 1003; 15000 bytes would need 15 chunks, only 10 come out.
    let text: Vec<u8> = (0..15000u32).map(|i| (i % 97) as u8).collect();
    let fields = vec![field("A", &text, false)];
    assert_eq!(calculate_total_parts(&fields, MAX_EMBED_SIZE), 15);
    let out = create_embeds_after_size(&fields);
    assert_eq!(out.len(), MAX_CHUNKS);
    // Labels still carry the dry-run total.
    assert_eq!(out[0][0].name, b"A (1/15):".to_vec());
    assert_eq!(out[9][0].name, b"A (10/15):".to_vec());
    let cap = MAX_EMBED_SIZE - 1 - LABEL_ALLOWANCE;
    let mut joined: Vec<u8> = Vec::new();
    for msg in &out {
        for f in msg {
            joined.extend_from_slice(&f.text);
        }
    }
    assert_eq!(joined.len(), 10 * cap);
    assert_eq!(&joined[..], &text[..10 * cap]);
}

#[test]
fn two_field_split_shares_budget() {
    // half = 505 - 1 - 1 - 6 = 497, full = 1010 - 8 = 1002.
    let t1: Vec<u8> = vec![b'p'; 1000];
    let t2: Vec<u8> = vec![b'q'; 100];
    let fields = vec![field("N", &t1, true), field("M", &t2, true)];
    assert_eq!(calculate_total_parts(&fields, MAX_EMBED_SIZE), 2);
    let out = create_embeds_after_size(&fields);
    assert_eq!(out.len(), 2);
    // First chunk: both fields, primary capped at half the budget.
    assert_eq!(out[0].len(), 2);
    assert_eq!(out[0][0].name, b"N (1/2):".to_vec());
    assert_eq!(out[0][0].text.len(), 497);
    assert_eq!(out[0][1].name, b"M".to_vec());
    assert_eq!(out[0][1].text.len(), 100);
    // Second chunk: the secondary is exhausted, the primary takes the
    // full budget and finishes.
    assert_eq!(out[1].len(), 1);
    assert_eq!(out[1][0].name, b"N (2/2):".to_vec());
    assert_eq!(out[1][0].text.len(), 503);
    // Per-field round trip.
    let mut j1: Vec<u8> = Vec::new();
    let mut j2: Vec<u8> = Vec::new();
    for msg in &out {
        for f in msg {
            if f.name.starts_with(b"N") {
                j1.extend_from_slice(&f.text);
            } else {
                j2.extend_from_slice(&f.text);
            }
        }
    }
    assert_eq!(j1, t1);
    assert_eq!(j2, t2);
}

#[test]
fn decimal_bytes_render() {
    assert_eq!(u64_to_bytes(0), b"0".to_vec());
    assert_eq!(u64_to_bytes(10), b"10".to_vec());
    assert_eq!(u64_to_bytes(1234567890), b"1234567890".to_vec());
}

#[test]
fn budget_boundary_is_single_message() {
    // 1 + 1 + 1008 == MAX_EMBED_SIZE: still one message.
    let fields = vec![field("A", &[b'x'; 1008], false)];
    let out = create_embeds_after_size(&fields);
    assert_eq!(out.len(), 1);
    assert_eq!(out[0][0].name, b"A:".to_vec());
    assert_eq!(out[0][0].text.len(), 1008);
    // One byte more crosses the budget and splits.
    let fields2 = vec![field("A", &[b'x'; 1009], false)];
    let out2 = create_embeds_after_size(&fields2);
    assert_eq!(out2.len(), 2);
}
