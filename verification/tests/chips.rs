use famitracker2midi::chips::{channel_layout, expansion_names, ChannelKind};

#[test]
fn plain_2a03() {
    let layout = channel_layout(0, 0);
    assert_eq!(layout.len(), 5);
    assert_eq!(layout[0], ChannelKind::Square1);
}

#[test]
fn n163_only() {
    let layout = channel_layout(16, 4);
    assert_eq!(layout.len(), 9);
    assert_eq!(layout[5], ChannelKind::N163(0));
    assert_eq!(layout[8], ChannelKind::N163(3));
}

#[test]
fn n163_defaults_to_eight() {
    assert_eq!(channel_layout(16, 0).len(), 5 + 8);
}

#[test]
fn multichip_order() {
    // VRC6 | FDS | N163 = 1 + 4 + 16 = 21
    let layout = channel_layout(1 | 4 | 16, 2);
    let labels: Vec<String> = layout.iter().map(|k| k.label()).collect();
    assert_eq!(labels[5], "VRC6 Square 1");
    assert_eq!(labels[8], "FDS");
    assert_eq!(labels[9], "N163 Wave 1");
    assert_eq!(layout.len(), 5 + 3 + 1 + 2);
}

#[test]
fn percussion_classification() {
    assert!(ChannelKind::Noise.is_percussion());
    assert!(ChannelKind::Dpcm.is_percussion());
    assert!(!ChannelKind::N163(0).is_percussion());
    assert_eq!(ChannelKind::N163(0).program(), Some(80));
}

#[test]
fn reparses_multichip_layout() {
    let layout = channel_layout(1 | 2 | 4 | 8 | 16 | 32, 8);
    let labels: Vec<String> = layout.iter().map(|kind| kind.label()).collect();
    assert_eq!(labels.len(), 5 + 3 + 6 + 1 + 3 + 8 + 3);
    assert!(labels.contains(&"N163 Wave 8".to_string()));
    assert!(labels.contains(&"VRC7 FM 6".to_string()));
    assert!(labels.contains(&"5B Square 3".to_string()));
}

#[test]
fn expansion_names_lists_enabled_chips() {
    assert_eq!(expansion_names(0), "none");
    assert_eq!(expansion_names(1 | 16), "VRC6,N163");
    assert_eq!(expansion_names(0x3f), "VRC6,VRC7,FDS,MMC5,N163,5B");
    assert_eq!(expansion_names(0x40), "none");
}

#[test]
fn layout_labels_are_distinct() {
    for expansion in [0u8, 0x3f, 0x12] {
        for n163 in [0u8, 3, 8] {
            let labels: Vec<String> =
                channel_layout(expansion, n163).iter().map(|kind| kind.label()).collect();
            for i in 0..labels.len() {
                for j in i + 1..labels.len() {
                    assert_ne!(labels[i], labels[j]);
                }
            }
        }
    }
}
