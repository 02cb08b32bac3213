use lasrs::{Las, WellProp};

const EXAMPLE: &str = "~VERSION INFORMATION
 VERS.                          2.0   :   CWLS LOG ASCII STANDARD -VERSION 2.0
 WRAP.                          NO    :   ONE LINE PER DEPTH STEP
~WELL INFORMATION BLOCK
#MNEM.UNIT       DATA TYPE    INFORMATION
#---------    -------------   ------------------------------
STRT    .M              1670.0000                :START DEPTH
STOP    .M              1669.7500                :STOP DEPTH
STEP    .M              -0.1250                  :STEP
NULL    .               -999.25                  :NULL VALUE
COMP    .       ANY OIL COMPANY INC.             :COMPANY
WELL    .       ANY ET AL 12-34-12-34            :WELL
FLD     .       WILDCAT                          :FIELD
LOC     .       12-34-12-34W5M                   :LOCATION
PROV    .       ALBERTA                          :PROVINCE
SRVC    .       ANY LOGGING COMPANY INC.         :SERVICE COMPANY
DATE    .       13-DEC-86                        :LOG DATE
UWI     .       100123401234W500                 :UNIQUE WELL ID
~CURVE INFORMATION
#MNEM.UNIT      API CODE      CURVE DESCRIPTION
#---------    -------------   ------------------------------
 DEPT   .M                               :  1  DEPTH
 DT     .US/M           60 520 32 00     :  2  SONIC TRANSIT TIME
 RHOB   .K/M3           45 350 01 00     :  3  BULK DENSITY
 NPHI   .V/V            42 890 00 00     :  4  NEUTRON POROSITY
 SFLU   .OHMM           07 220 04 00     :  5  SHALLOW RESISTIVITY
 SFLA   .OHMM           07 222 01 00     :  6  SHALLOW RESISTIVITY
 ILM    .OHMM           07 120 44 00     :  7  MEDIUM RESISTIVITY
 ILD    .OHMM           07 120 46 00     :  8  DEEP RESISTIVITY
~PARAMETER INFORMATION
#MNEM.UNIT              VALUE             DESCRIPTION
#---------          -------------     ------------------------------
 BHT    .DEGC           35.5000           :BOTTOM HOLE TEMPERATURE
 MUD    .               GEL CHEM          :MUD TYPE
~OTHER
     Note: The logging tools became stuck at 625 metres causing the data
     between 625 metres and 615 metres to be invalid.
~A  DEPTH     DT       RHOB     NPHI   SFLU   SFLA      ILM      ILD
1670.000   123.450 2550.000   0.450  123.450  123.450  110.200  105.600
1669.875   123.450 2550.000   0.450  123.450  123.450  110.200  105.600
1669.750   123.450 2550.000   0.450  123.450  123.450  110.200  105.600
1669.745   123.450 2550.000  -999.250 123.450  123.450  110.200  105.600
";

const A10: &str = "# LAS format log file from PETREL
# Project units are specified as depth units
#==================================================================
~Version information
VERS.   2.0:
WRAP.   NO:
#==================================================================
~Well
STRT .m       1499.879000 :
STOP .m       2416.379000 :
STEP .m     0.250000 :
NULL .        -999.250000 :
#==================================================================
~Curve
DEPT .m                   : DEPTH
Perm .m                   :
Gamma .m                  :
Porosity .m               :
Fluvialfacies .m          :
NetGross .m               :
#==================================================================
~Ascii
1499.879000 -999.250000 -999.250000 -999.250000 -999.250000 0.000000
1500.129000 -999.250000 -999.250000 -999.250000 -999.250000 0.000000
1500.629000 -999.250000 -999.250000 -999.250000 -999.250000 0.000000
1501.129000 -999.250000 -999.250000 0.270646 0.000000 0.000000
1501.629000 124.579900 78.869453 0.267428 0.000000 0.000000
";

fn example() -> Las {
    Las::new(EXAMPLE.as_bytes().to_vec())
}

fn a10() -> Las {
    Las::new(A10.as_bytes().to_vec())
}

fn v(s: &str) -> Vec<u8> {
    s.as_bytes().to_vec()
}

fn fl(tok: &[u8]) -> f64 {
    std::str::from_utf8(tok)
        .unwrap()
        .trim()
        .parse::<f64>()
        .unwrap_or(0.0)
}

#[test]
fn version_test() {
    let las = example();
    let token = las.version().unwrap();
    assert_eq!(token, v("2.0"));
    assert_eq!(fl(&token), 2.0);
}

#[test]
fn wrap_test() {
    let las = example();
    assert_eq!(las.wrap(), false);
}

#[test]
fn headers_test() {
    let las = example();
    assert_eq!(
        vec![
            v("DEPT"),
            v("DT"),
            v("RHOB"),
            v("NPHI"),
            v("SFLU"),
            v("SFLA"),
            v("ILM"),
            v("ILD")
        ],
        las.headers()
    );
    let las = a10();
    assert_eq!(
        vec![
            v("DEPT"),
            v("Perm"),
            v("Gamma"),
            v("Porosity"),
            v("Fluvialfacies"),
            v("NetGross")
        ],
        las.headers()
    );
}

#[test]
fn data_test() {
    let las = example();
    let got: Vec<Vec<f64>> = las
        .data()
        .into_iter()
        .map(|row| row.iter().map(|t| fl(t)).collect())
        .collect();
    let expected: Vec<Vec<f64>> = vec![
        vec![1670.0, 123.45, 2550.0, 0.45, 123.45, 123.45, 110.2, 105.6],
        vec![1669.875, 123.45, 2550.0, 0.45, 123.45, 123.45, 110.2, 105.6],
        vec![1669.75, 123.45, 2550.0, 0.45, 123.45, 123.45, 110.2, 105.6],
        vec![
            1669.745, 123.45, 2550.0, -999.25, 123.45, 123.45, 110.2, 105.6,
        ],
    ];
    assert_eq!(expected, got);
    let las = a10();
    let got: Vec<Vec<f64>> = las
        .data()
        .into_iter()
        .map(|row| row.iter().map(|t| fl(t)).collect())
        .collect();
    let expected: Vec<Vec<f64>> = vec![
        vec![1499.879, -999.25, -999.25, -999.25, -999.25, 0.0],
        vec![1500.129, -999.25, -999.25, -999.25, -999.25, 0.0],
        vec![1500.629, -999.25, -999.25, -999.25, -999.25, 0.0],
        vec![1501.129, -999.25, -999.25, 0.270646, 0.0, 0.0],
        vec![1501.629, 124.5799, 78.869453, 0.267428, 0.0, 0.0],
    ];
    assert_eq!(expected, &got[0..5]);
}

#[test]
fn test_column() {
    let las = example();
    let col: Vec<f64> = las.column(b"DEPT").unwrap().iter().map(|t| fl(t)).collect();
    assert_eq!(vec![1670.0, 1669.875, 1669.75, 1669.745], col);
}

#[test]
fn test_counts() {
    let las = example();
    assert_eq!(las.column_count(), 8);
    assert_eq!(las.row_count(), 4);
}

#[test]
fn test_header_and_desc() {
    let las = example();
    let mut expected = vec![
        (v("DEPT"), v("DEPTH")),
        (v("DT"), v("SONIC TRANSIT TIME")),
        (v("RHOB"), v("BULK DENSITY")),
        (v("NPHI"), v("NEUTRON POROSITY")),
        (v("SFLU"), v("SHALLOW RESISTIVITY")),
        (v("SFLA"), v("SHALLOW RESISTIVITY")),
        (v("ILM"), v("MEDIUM RESISTIVITY")),
        (v("ILD"), v("DEEP RESISTIVITY")),
    ];
    let mut result = las.headers_and_desc();
    expected.sort_by(|a, b| a.0.partial_cmp(&b.0).unwrap());
    result.sort_by(|a, b| a.0.partial_cmp(&b.0).unwrap());
    assert_eq!(expected, result);
}

#[test]
fn other_test() {
    let las = example();
    let expected = [
        "Note: The logging tools became stuck at 625 metres causing the data",
        "between 625 metres and 615 metres to be invalid.",
    ];
    assert_eq!(las.other(), v(&expected.join("\n")));

    let las = a10();
    assert_eq!(las.other(), v(""));
}

#[test]
fn well_section_test() {
    let las = example();
    let well_section = las.well_info();
    assert_eq!(
        &WellProp::new(b"M", b"START DEPTH", b"1670.0000"),
        well_section.get(b"STRT").unwrap()
    );
    assert_eq!(
        &WellProp::new(b"M", b"STOP DEPTH", b"1669.7500"),
        well_section.get(b"STOP").unwrap()
    );
    assert_eq!(
        &WellProp::new(b"M", b"STEP", b"-0.1250"),
        well_section.get(b"STEP").unwrap()
    );
    assert_eq!(
        &WellProp::new(b"", b"NULL VALUE", b"-999.25"),
        well_section.get(b"NULL").unwrap()
    );
    assert_eq!(
        &WellProp::new(b"", b"COMPANY", b"ANY OIL COMPANY INC."),
        well_section.get(b"COMP").unwrap()
    );
    assert_eq!(
        &WellProp::new(b"", b"WELL", b"ANY ET AL 12-34-12-34"),
        well_section.get(b"WELL").unwrap()
    );
    assert_eq!(
        &WellProp::new(b"", b"FIELD", b"WILDCAT"),
        well_section.get(b"FLD").unwrap()
    );
    assert_eq!(
        &WellProp::new(b"", b"LOCATION", b"12-34-12-34W5M"),
        well_section.get(b"LOC").unwrap()
    );
    assert_eq!(
        &WellProp::new(b"", b"PROVINCE", b"ALBERTA"),
        well_section.get(b"PROV").unwrap()
    );
    assert_eq!(
        &WellProp::new(b"", b"SERVICE COMPANY", b"ANY LOGGING COMPANY INC."),
        well_section.get(b"SRVC").unwrap()
    );
    assert_eq!(
        &WellProp::new(b"", b"LOG DATE", b"13-DEC-86"),
        well_section.get(b"DATE").unwrap()
    );
    assert_eq!(
        &WellProp::new(b"", b"UNIQUE WELL ID", b"100123401234W500"),
        well_section.get(b"UWI").unwrap()
    );
}

#[test]
fn curve_section_test() {
    let las = example();
    let curve_section = las.curve_params();
    assert_eq!(
        &WellProp::new(b"OHMM", b"SHALLOW RESISTIVITY", b"07 220 04 00"),
        curve_section.get(b"SFLU").unwrap()
    );
    let params = las.log_params();
    assert_eq!(
        &WellProp::new(b"", b"MUD TYPE", b"GEL CHEM"),
        params.get(b"MUD").unwrap()
    );
    assert_eq!(
        &WellProp::new(b"DEGC", b"BOTTOM HOLE TEMPERATURE", b"35.5000"),
        params.get(b"BHT").unwrap()
    );
}
