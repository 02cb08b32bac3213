use lasrs::{Las, LasError, WellProp, metadata, property, remove_comment};

fn v(s: &str) -> Vec<u8> {
    s.as_bytes().to_vec()
}

#[test]
fn test_remove_comment() {
    let test = "#remove me
    #    still remove me
    retain me
      retain me but trimmed
    123 retain";
    let expected = vec![v("retain me"), v("retain me but trimmed"), v("123 retain")];
    assert_eq!(expected, remove_comment(test.as_bytes()))
}

#[test]
fn test_metatdata() {
    let test = "~VERSION INFORMATION
        VERS.                          2.0 :   CWLS LOG ASCII STANDARD -VERSION 2.0
        WRAP.                          NO  :   ONE LINE PER DEPTH STEP
        ~WELL INFORMATION";
    assert_eq!(Some((Some(v("2.0")), false)), metadata(test.as_bytes()));
    let test1 = "~VERSION INFORMATION
        VERS.                           :   CWLS LOG ASCII STANDARD -VERSION 2.0
        WRAP.                           :   ONE LINE PER DEPTH STEP
        ~WELL INFORMATION";
    assert_eq!(Some((None, false)), metadata(test1.as_bytes()));
    let test2 = "# LAS format log file from PETREL
        # Project units are specified as depth units
        #==================================================================
        ~Version Information
        VERS.   2.0:
        WRAP.   NO:
        #==================================================================";
    assert_eq!(Some((Some(v("2.0")), false)), metadata(test2.as_bytes()));
}

#[test]
fn test_property() {
    let test = "~Well
    STRT .m       1499.879000 :
    STOP .m       2416.379000 :
    STEP .m     0.000000 :
    NULL .        -999.250000 :
    COMP.           : COMPANY
    WELL.  A10   : WELL
    FLD.            : FIELD
    LOC.            : LOCATION
    SRVC.           : SERVICE COMPANY
    DATE.  Tuesday, July 02 2002 10:57:24   : DATE
    PROV.           : PROVINCE
    UWI.   02c62c82-552d-444d-bf6b-69cd07376368   : UNIQUE WELL ID
    API.            : API NUMBER
    #==================================================================
    ~Curve
    DEPT .m                   : DEPTH
    Perm .m                   :
    Gamma .m                  :
    Porosity .m               :
    Fluvialfacies .m          :
    NetGross .m               :
    ~Parameter
    #==================================================================
    ~Ascii";
    let result = property(test.as_bytes(), b"~W").unwrap();
    assert_eq!(
        &WellProp::new(b"m", b"", b"1499.879000"),
        result.get(b"STRT").unwrap()
    );
    assert_eq!(
        &WellProp::new(b"", b"", b"-999.250000"),
        result.get(b"NULL").unwrap()
    );
    let result = property(test.as_bytes(), b"~C").unwrap();
    assert_eq!(
        &WellProp::new(b"m", b"DEPTH", b""),
        result.get(b"DEPT").unwrap()
    );
    assert_eq!(&WellProp::new(b"m", b"", b""), result.get(b"Gamma").unwrap());
}

#[test]
fn test_() {
    let test = "~Well
	STRT    .M              1670.0000                :START DEPTH
	STOP    .M              1669.7500                :STOP DEPTH
	STEP    .M              -0.1250                  :STEP
	NULL    .               -999.25                  :NULL VALUE
	COMP    .       ANY OIL COMPANY INC.             :COMPANY
	WELL    .       ANY ET AL 12-34-12-34            :WELL
	FLD     .       WILDCAT                          :FIELD
	LOC     .       12-34-12-34W5M                   :LOCATION
	PROV    .       ALBERTA                          :PROVINCE
	SRVC    .       ANY LOGGING COMPANY INC.         :SERVICE COMPANY
	DATE    .       13-DEC-86                        :LOG DATE
	UWI     .       100123401234W500                 :UNIQUE WELL ID
    ";
    let result = property(test.as_bytes(), b"~W").unwrap();
    assert_eq!(
        &WellProp::new(b"", b"COMPANY", b"ANY OIL COMPANY INC."),
        result.get(b"COMP").unwrap()
    );
    assert_eq!(
        &WellProp::new(b"", b"SERVICE COMPANY", b"ANY LOGGING COMPANY INC."),
        result.get(b"SRVC").unwrap()
    );
}

#[test]
fn property_missing_section() {
    let test = "~Well
    STRT .m       1499.879000 :";
    assert!(property(test.as_bytes(), b"~P").is_none());
    let las = Las::new(test.as_bytes().to_vec());
    assert_eq!(0, las.curve_params().len());
    assert_eq!(0, las.log_params().len());
}

#[test]
fn property_extraction_idempotent() {
    let test = "~Curve
    DEPT .m                   : DEPTH
    Perm .m                   :
    Gamma .m                  :
    ~Ascii";
    let las = Las::new(test.as_bytes().to_vec());
    let first = las.curve_params();
    let second = las.curve_params();
    assert_eq!(first.len(), second.len());
    for i in 0..first.len() {
        let a = first.entry_at(i);
        let b = second.entry_at(i);
        assert_eq!(a.0, b.0);
        assert_eq!(a.1, b.1);
    }
}

#[test]
fn property_duplicate_title_overwrites() {
    let test = "~Well
    STRT .m       1.000000 :
    STRT .m       2.000000 :
    ~Curve";
    let las = Las::new(test.as_bytes().to_vec());
    let well = las.well_info();
    assert_eq!(1, well.len());
    assert_eq!(
        &WellProp::new(b"m", b"", b"2.000000"),
        well.get(b"STRT").unwrap()
    );
}

#[test]
fn version_empty_token_is_error() {
    let test = "~VERSION INFORMATION
 VERS.                :   CWLS LOG ASCII STANDARD
 WRAP.          NO    :   ONE LINE PER DEPTH STEP
~WELL";
    let las = Las::new(test.as_bytes().to_vec());
    assert_eq!(Err(LasError::InvalidVersion), las.version());
    assert_eq!(false, las.wrap());
}

#[test]
fn version_missing_section_is_error() {
    let las = Las::new(b"no sections at all".to_vec());
    assert_eq!(Err(LasError::InvalidVersion), las.version());
    assert_eq!(false, las.wrap());
}

#[test]
fn version_word_token_is_error() {
    let test = "~VERSION
 VERS.    two :
 WRAP.    NO  :
~WELL";
    let las = Las::new(test.as_bytes().to_vec());
    assert_eq!(Err(LasError::InvalidVersion), las.version());
}

#[test]
fn wrap_is_case_insensitive() {
    let test = "~VERSION
 VERS.    2.0 :
 WRAP.    Yes :
~WELL";
    let las = Las::new(test.as_bytes().to_vec());
    assert_eq!(true, las.wrap());
    let test = "~VERSION
 VERS.    2.0 :
 WRAP.    YES :
~WELL";
    let las = Las::new(test.as_bytes().to_vec());
    assert_eq!(true, las.wrap());
}

#[test]
fn float_literal_shapes() {
    assert!(lasrs::meta::is_float_literal(b"2.0"));
    assert!(lasrs::meta::is_float_literal(b"-999.25"));
    assert!(lasrs::meta::is_float_literal(b"1e5"));
    assert!(lasrs::meta::is_float_literal(b"+1.25E-3"));
    assert!(lasrs::meta::is_float_literal(b".5"));
    assert!(lasrs::meta::is_float_literal(b"5."));
    assert!(lasrs::meta::is_float_literal(b"inf"));
    assert!(lasrs::meta::is_float_literal(b"NaN"));
    assert!(!lasrs::meta::is_float_literal(b""));
    assert!(!lasrs::meta::is_float_literal(b"two"));
    assert!(!lasrs::meta::is_float_literal(b"1.2.3"));
    assert!(!lasrs::meta::is_float_literal(b"1e"));
    assert!(!lasrs::meta::is_float_literal(b"+"));
    assert!(!lasrs::meta::is_float_literal(b"."));
}

#[test]
fn empty_document() {
    let las = Las::new(Vec::new());
    assert_eq!(Err(LasError::InvalidVersion), las.version());
    assert_eq!(false, las.wrap());
    assert!(las.headers().is_empty());
    assert!(las.data().is_empty());
    assert_eq!(0, las.column_count());
    assert_eq!(0, las.row_count());
    assert_eq!(0, las.curve_params().len());
    assert!(las.headers_and_desc().is_empty());
    assert_eq!(v(""), las.other());
    assert_eq!(Err(LasError::FieldNotFound), las.column(b"DEPT"));
}

#[test]
fn missing_wrap_line_defaults_false() {
    let test = "~VERSION
 VERS.    2.0 :
~WELL";
    let las = Las::new(test.as_bytes().to_vec());
    assert_eq!(Ok(v("2.0")), las.version());
    assert_eq!(false, las.wrap());
}

#[test]
fn column_unknown_field_is_error() {
    let test = "~VERSION
 VERS.    2.0 :
 WRAP.    NO  :
~Curve
 DEPT .m      : DEPTH
~A depth
1670.0
";
    let las = Las::new(test.as_bytes().to_vec());
    assert_eq!(Err(LasError::FieldNotFound), las.column(b"NOPE"));
    assert_eq!(vec![v("1670.0")], las.column(b"DEPT").unwrap());
}

#[test]
fn data_single_row_of_eight() {
    let test = "~Curve
 C1 .m   :
 C2 .m   :
 C3 .m   :
 C4 .m   :
 C5 .m   :
 C6 .m   :
 C7 .m   :
 C8 .m   :
~A  C1 C2 C3 C4 C5 C6 C7 C8
1670.0 123.45 2550.0 0.45 123.45 123.45 110.2 105.6
";
    let las = Las::new(test.as_bytes().to_vec());
    let rows = las.data();
    assert_eq!(1, rows.len());
    assert_eq!(
        vec![
            v("1670.0"),
            v("123.45"),
            v("2550.0"),
            v("0.45"),
            v("123.45"),
            v("123.45"),
            v("110.2"),
            v("105.6")
        ],
        rows[0]
    );
    let parsed: Vec<f64> = rows[0]
        .iter()
        .map(|t| std::str::from_utf8(t).unwrap().parse::<f64>().unwrap())
        .collect();
    assert_eq!(
        vec![1670.0, 123.45, 2550.0, 0.45, 123.45, 123.45, 110.2, 105.6],
        parsed
    );
}

#[test]
fn data_short_final_row_is_kept() {
    let test = "~Curve
 C1 .m   :
 C2 .m   :
 C3 .m   :
~A  C1 C2 C3
1.0 2.0 3.0 4.0
";
    let las = Las::new(test.as_bytes().to_vec());
    let rows = las.data();
    assert_eq!(2, rows.len());
    assert_eq!(vec![v("1.0"), v("2.0"), v("3.0")], rows[0]);
    assert_eq!(vec![v("4.0")], rows[1]);
    assert_eq!(2, las.row_count());
    assert_eq!(3, las.column_count());
}

#[test]
fn column_returns_first_entry_of_each_row() {
    let test = "~Curve
 DEPT .m  : DEPTH
 DT   .us :
 RHOB .g  :
 NPHI .v  :
 SFLU .o  :
 SFLA .o  :
 ILM  .o  :
 ILD  .o  :
~A  DEPT DT RHOB NPHI SFLU SFLA ILM ILD
1670.000   123.450 2550.000   0.450  123.450  123.450  110.200  105.600
1669.875   123.450 2550.000   0.450  123.450  123.450  110.200  105.600
1669.750   123.450 2550.000   0.450  123.450  123.450  110.200  105.600
1669.745   123.450 2550.000  -999.250 123.450  123.450  110.200  105.600
";
    let las = Las::new(test.as_bytes().to_vec());
    let rows = las.data();
    assert_eq!(4, rows.len());
    let dept = las.column(b"DEPT").unwrap();
    let firsts: Vec<Vec<u8>> = rows.iter().map(|r| r[0].clone()).collect();
    assert_eq!(firsts, dept);
}
