use draw::Rgba;

#[test]
fn color_from_test() {
    {
        let expected = Rgba([0x12, 0x34, 0x56, 0x78]);
        let found = Rgba::from_rgba_u32(0x12_34_56_78);
        assert!(expected == found);
    }
    {
        let expected = Rgba([0x12, 0x34, 0x56, 0x78]);
        let found = Rgba::from_argb_u32(0x78_12_34_56);
        assert!(expected == found);
    }
    {
        let expected = Rgba([0x12, 0x34, 0x56, 0x78]);
        let found = Rgba::from_le_u32(0x78_56_34_12);
        assert!(expected == found);
    }
}

#[test]
fn color_parsing() {
    {
        // Without a leading `#` the text is not read as a hexadecimal color.
        let found = "0x87123456".parse::<Rgba>();
        assert_eq!(found.unwrap_err().kind, draw::RgbaParseErrorKind::Unrecognized);
    }
}
