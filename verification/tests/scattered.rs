use tile_collision::{Grid, GridPos, TileType, WorldPos, UNIT};

const KINDS: [TileType; 10] = [
    TileType::Dirt,
    TileType::Grass,
    TileType::YellowGrass,
    TileType::Water,
    TileType::Shore,
    TileType::Tree,
    TileType::Rock,
    TileType::Plant,
    TileType::Stump,
    TileType::Empty,
];

/// A level of twelve by nine tiles with a fixed scatter of every kind of tile.
fn scattered_level() -> Grid {
    let mut map = Grid::new(12, 9, 32 * UNIT);
    let mut state: u64 = 2024;
    for gy in 0..9 {
        for gx in 0..12 {
            state = (state * 1_103_515_245 + 12_345) % (1 << 31);
            let pick = ((state >> 16) % 16) as usize;
            if pick < KINDS.len() {
                map.set_tile(gx, gy, KINDS[pick]);
            }
        }
    }
    map
}

#[test]
fn the_scattered_level_holds_the_expected_tiles() {
    let map = scattered_level();
    assert_eq!(map.tiles().iter().filter(|t| **t == TileType::Dirt).count(), 8);
    assert_eq!(map.tiles().iter().filter(|t| **t == TileType::Grass).count(), 8);
    assert_eq!(map.tiles().iter().filter(|t| **t == TileType::YellowGrass).count(), 5);
    assert_eq!(map.tiles().iter().filter(|t| **t == TileType::Water).count(), 6);
    assert_eq!(map.tiles().iter().filter(|t| **t == TileType::Shore).count(), 7);
    assert_eq!(map.tiles().iter().filter(|t| **t == TileType::Tree).count(), 10);
    assert_eq!(map.tiles().iter().filter(|t| **t == TileType::Rock).count(), 4);
    assert_eq!(map.tiles().iter().filter(|t| **t == TileType::Plant).count(), 3);
    assert_eq!(map.tiles().iter().filter(|t| **t == TileType::Stump).count(), 6);
    assert_eq!(map.tiles().iter().filter(|t| **t == TileType::Empty).count(), 51);
    assert_eq!(map.get_tile(0, 0), Some(TileType::Empty));
    assert_eq!(map.get_tile(11, 8), Some(TileType::Plant));
    assert_eq!(map.get_tile(5, 4), Some(TileType::Empty));
}

/// Start, desired end, radius and the point that is reached.
const MOVES: [(i32, i32, i32, i32, i32, i32, i32); 160] = [
    (596506, -1007293, 97769, -1455384, 12345, 374845, -1405597),
    (-1330380, -106190, -866211, -255936, 0, -866211, -255936),
    (-1399023, 178841, -1494317, -230921, -30000, -1399023, 178841),
    (1441125, -1392073, -1081474, -703668, 1, 65162, -703668),
    (-1601064, 780545, -2097068, 644187, 0, -1884495, 644187),
    (-1002849, -425291, -468949, -778263, -30000, -468949, -778263),
    (467733, 709889, -603958, -1207754, -30000, -603958, -1002293),
    (-544024, -78052, -1012346, 505514, 0, -544024, -78052),
    (-392294, 442113, -95568, 500927, 150000, -392294, 442113),
    (1681586, -123414, 1458584, -211507, 0, 1607252, -211507),
    (398672, 562833, 518992, 904106, 100000, 518992, 904106),
    (-1505947, -1144797, -1759997, -1027454, 50000, -1759997, -1027454),
    (1981719, 128731, 1544500, 699100, -30000, 1981719, 128731),
    (511904, -213424, 953506, 143307, 0, 953506, 143307),
    (-1334860, -507793, -1798546, -980560, 1, -1798546, -980560),
    (477174, 1074255, 811750, 1071095, 1, 811750, 1071095),
    (1116253, 1164532, 1484498, 1309994, 50000, 1484498, 1309994),
    (-1137730, 430698, -1134942, 101944, 1, -1137730, 430698),
    (-42857, 28903, 398393, -402106, 50000, 398393, -402106),
    (1648057, 44618, 1335211, 347487, 12345, 1648057, 347487),
    (215565, 1322842, 367962, 1520685, 50000, 367962, 1372302),
    (-853984, -1291937, -967536, -1402596, 0, -967536, -1402596),
    (1948162, 830963, 1939413, 239547, 50000, 1948162, 830963),
    (1394377, 602237, 1982080, 670414, 50000, 1835154, 670414),
    (-1667075, 275302, 1171512, 29625, 150000, -1667075, 275302),
    (1186118, -1205734, 1425907, -1675191, 50000, 1186118, -1205734),
    (-1555048, -764384, -1924512, -651240, -30000, -1850620, -651240),
    (-1678964, -1210589, -1961739, -685219, 0, -1891046, -685219),
    (930181, 934200, 766289, 1123210, 50000, 766289, 1123210),
    (-3909, -182943, 390458, -525325, 0, 390458, -525325),
    (1974211, 314501, 2028212, -105386, 50000, 1974211, 314501),
    (-1262789, 1504360, -1307554, 1908102, 12345, -1262789, 1504360),
    (-765755, 525663, -257919, 684312, 50000, -693207, 684312),
    (-1893152, 1539882, -2302290, 1487480, -30000, -1893152, 1539882),
    (956100, -939375, 823330, -422448, -30000, 823330, -422448),
    (2096928, -257285, 1906178, -355253, 12345, 2096928, -257285),
    (1241184, 1463252, -442967, 531134, 150000, 1241184, 1463252),
    (862674, 1426052, 321262, 1412035, 150000, 862674, 1426052),
    (54112, -827795, 176121, -489891, 12345, 176121, -489891),
    (811983, -110607, 426222, -234877, 150000, 426222, -234877),
    (-469910, -223427, -1065908, 182101, 1, -469910, -223427),
    (765739, 1057495, 417195, 1272313, 12345, 417195, 1272313),
    (-447988, 365014, 1520027, 1026915, 100000, 1141563, 976000),
    (-1392290, 1387552, -1150521, 965640, 1, -1392290, 1387552),
    (-787419, -926953, -1888904, -1006029, -30000, -1888904, -1006029),
    (1783671, 1110868, 2178469, 1245725, 50000, 1849470, 1245725),
    (-1021228, -1550256, -1405700, -1045936, 1, -1021228, -1550256),
    (-951881, 179528, -485854, -754825, 0, -485854, -754825),
    (-7457, -747537, -103010, -663888, 100000, -7457, -747537),
    (1394932, -1090238, 1536870, -729405, 1, 1536870, -729405),
    (1408485, 464068, 1126908, 961940, -30000, 1197302, 961940),
    (-1963093, 206017, -2087012, 1614943, 12345, -1963093, 206017),
    (-863366, -917126, -1211002, -350113, 0, -1211002, -350113),
    (614536, 1221905, 1179382, 1633753, 12345, 1179382, 1404948),
    (-1229890, 710052, -1428692, 690789, 0, -1428692, 690789),
    (-1300054, 489506, -1841616, 22400, 150000, -1300054, 489506),
    (611445, 929128, -447285, 1265524, 100000, -69168, 1265524),
    (1674551, 491361, 2077065, 956193, 50000, 1825493, 956193),
    (57617, 706770, -420565, 237069, 50000, -420565, 237069),
    (1375004, -1129881, 1437661, -1577741, 1, 1437661, -1428455),
    (-101376, 156582, -66401, -186832, 12345, -66401, -186832),
    (-824408, 1363624, -656466, 1063472, 100000, -656466, 1243563),
    (-968625, 321826, -1371230, 557031, 150000, -968625, 321826),
    (-754376, 1161094, -765525, 1322535, 150000, -754376, 1161094),
    (1267401, -217644, 1415276, -149648, 0, 1267401, -149648),
    (949832, -1558283, 1311734, -1234576, 1, 949832, -1558283),
    (-1968318, -27943, -1948706, 446348, 0, -1968318, -27943),
    (-1173346, -681376, -1241046, -1287422, 100000, -1241046, -1287422),
    (161034, -1473956, -597037, -505667, 12345, 161034, -1473956),
    (-1033210, 131062, 49369, 62668, 50000, -1033210, 131062),
    (2029106, 1297763, 2014342, 818404, 12345, 2029106, 1297763),
    (-581999, 143908, 135893, -1569403, 1, -581999, 143908),
    (-1377056, -547167, -1510633, -1007450, 100000, -1510633, -1007450),
    (-1099295, 263264, -539436, 539370, 100000, -1099295, 263264),
    (-1035984, -1458783, -1135948, -1829247, 50000, -1035984, -1458783),
    (76936, -1428693, 131231, -1389051, -30000, 76936, -1428693),
    (-393025, -423817, -619942, -456491, 100000, -393025, -423817),
    (-1967637, -589542, -2528979, -129109, -30000, -1967637, -589542),
    (-530724, 516857, -193181, 139745, 1, -193181, 139745),
    (1505368, 1113600, 1729729, 1576197, 100000, 1729729, 1311855),
    (-314930, -677130, -621919, -428418, 100000, -314930, -677130),
    (-1663756, -1095502, -1727737, -792174, 50000, -1727737, -792174),
    (-1655262, -1285645, -1456496, -824606, 1, -1456496, -824606),
    (245027, 871458, 259615, 366327, 150000, 259615, 366327),
    (-565155, -979259, -1157558, -1027199, 100000, -1157558, -1027199),
    (639232, 654592, 111472, 703761, 50000, 111472, 703761),
    (871242, -872619, 1071571, -1296688, 150000, 1071571, -943298),
    (219824, 468745, 140293, 927252, 12345, 140293, 927252),
    (-2078472, -1258941, -2490246, -1557234, 150000, -2078472, -1258941),
    (-1770473, 12466, -1732426, -99297, 0, -1732426, -99297),
    (-817651, 1117938, 1147500, 1565754, 100000, -817651, 1117938),
    (2025572, -1013107, 1729139, -1521277, 12345, 2025572, -1013107),
    (1480765, 1437998, -951404, 556797, 12345, -288085, 556797),
    (2110971, 744375, -1985114, 1239271, -30000, 2110971, 744375),
    (-191118, -1283100, -512002, -1126642, 0, -191118, -1283100),
    (1039302, 253250, 478813, 767768, 1, 478813, 767768),
    (-68485, 412249, 289805, -40717, 1, 289805, -40717),
    (2099226, 604790, 2602307, 143307, 1, 2099226, 604790),
    (1855012, -582224, 107663, -655238, 1, 1855012, -582224),
    (-398511, -672223, 1741612, 431771, 12345, -398511, -494160),
    (1089149, -1318130, 1091700, -1820094, -30000, 1089149, -1318130),
    (-456622, -1315060, -360844, -1382509, 1, -360844, -1382509),
    (433636, 965295, -140215, 1377004, 0, -140215, 1377004),
    (1955169, -512686, -1285174, 1263235, 50000, 1955169, -512686),
    (1987182, -420060, 275312, 308937, 150000, 1987182, -420060),
    (1791936, 1577743, 2343432, 1395600, 100000, 1791936, 1577743),
    (-1399803, 343675, -1037272, -95968, 12345, -1399803, 343675),
    (1650267, -513170, 1492155, -956696, -30000, 1650267, -513170),
    (-1362483, -1045497, 76212, -131923, 50000, -381555, -547184),
    (225185, -1167397, -179014, 448293, 150000, 225185, -1167397),
    (1185787, -1535837, 1616948, -1190525, 150000, 1185787, -1535837),
    (412948, 1410025, 534284, 1598776, 100000, 412948, 1410025),
    (-1105739, -250325, -996330, -15115, 0, -996330, -15115),
    (-478005, 1350637, -470182, 1281661, 100000, -470182, 1281661),
    (-1574931, 7939, -2014708, 164401, 150000, -1574931, 7939),
    (188169, -1437549, -303582, -1438554, 1, 188169, -1437549),
    (-870816, -594257, 1539452, 503134, 100000, -729036, -529705),
    (-527431, 1602967, -230380, 1063808, 12345, -527431, 1602967),
    (1235792, 684286, 804774, 188044, 1, 1235792, 684286),
    (1326761, 251045, 1017368, 251267, 150000, 1326761, 251045),
    (-1709152, 667321, -1318911, 937359, 100000, -1383952, 937359),
    (243457, -391055, 189071, -139173, 1, 189071, -139173),
    (-117933, -378202, 109116, -727084, 50000, 109116, -552643),
    (-763924, -1324712, -321481, -770468, 50000, -370642, -770468),
    (1679922, -243992, 1654541, 152742, 50000, 1654541, 152742),
    (-505973, -616231, -388841, -50479, 0, -388841, -545512),
    (558379, -637031, 1152953, -813109, 0, 1152953, -813109),
    (1342663, -34262, 1841923, -193850, 150000, 1342663, -34262),
    (146936, -221474, 2058750, -476013, -30000, 1217551, -476013),
    (901117, -1112048, 1410983, -1259141, 0, 1410983, -1154074),
    (153487, -597910, 488519, -292283, 100000, 488519, -292283),
    (-1937041, -1106288, -1544526, -679052, 0, -1544526, -679052),
    (-1506475, 2158, 1807138, 243034, 50000, -1506475, 2158),
    (-1205256, -701314, -709776, -1072955, 12345, -709776, -1072955),
    (1716320, -1283470, 1199254, -1880606, 12345, 1302667, -1402898),
    (-1065957, -664503, -1587122, -627426, 50000, -1587122, -627426),
    (-7800, 575654, -372641, 184204, 0, -372641, 184204),
    (399512, 559646, -511890, -12267, 100000, -186390, -12267),
    (-244450, 881032, 282719, 913367, 150000, -244450, 881032),
    (217096, -313103, 125356, 83682, -30000, 125356, 83682),
    (-150623, 654293, 113005, 698952, 0, 113005, 698952),
    (-1937235, -825822, -1656398, -1255760, 100000, -1937235, -825822),
    (-208736, 1159089, -32333, 1034693, 150000, -208736, 1159089),
    (-1833971, 1278492, -1552000, 1438331, 1, -1608395, 1438331),
    (1204893, -809194, 1217494, -350388, 0, 1217494, -350388),
    (-398502, 439098, 494861, 1572237, 12345, 494861, 1393321),
    (-493170, -671918, -537379, -653399, 0, -537379, -653399),
    (2038775, 918937, 1907119, 1336166, 150000, 2038775, 918937),
    (-1646740, 854781, -1421595, 368778, 50000, -1421595, 577065),
    (-1921788, 860338, -2413071, 386450, 50000, -1921788, 860338),
    (1179421, 245935, 515700, 1433266, 0, 515700, 1301340),
    (-1454271, -945282, -1665224, -444702, 1, -1665224, -444702),
    (1802645, -1506229, 1996667, -1322139, 100000, 1802645, -1506229),
    (1591415, -930069, 1155500, -943273, 0, 1155500, -943273),
    (828317, 122375, -1082260, 713545, 12345, -623722, 453430),
    (-380183, -45621, -332794, 261290, 0, -380183, -45621),
    (-1706800, 1318060, -1525162, 1853728, 150000, -1706800, 1318060),
    (-500779, -283943, -105609, -820437, 1, -500779, -283943),
    (1326055, -599758, 1275478, -1469504, 150000, 1275478, -916030),
    (-1827621, 306369, -2297590, 245370, 50000, -1827621, 245370),
];

#[test]
fn moves_on_the_scattered_level_end_where_expected() {
    let map = scattered_level();
    for &(sx, sy, ex, ey, radius, rx, ry) in &MOVES {
        let reached = map.try_move_circle(WorldPos::new(sx, sy), WorldPos::new(ex, ey), radius);
        assert_eq!(reached, WorldPos::new(rx, ry), "from ({sx}, {sy}) to ({ex}, {ey}), radius {radius}");
    }
}

/// Point, radius, margin in tiles; then whether the point is walkable, clear for the
/// radius, walkable with the margin and walkable by the terrain's own margin; then its cell.
const POINTS: [(i32, i32, i32, i32, bool, bool, bool, bool, i32, i32); 200] = [
    (-1592762, 900138, 100000, 2500, true, true, true, true, 1, 7),
    (164340, -235031, -30000, 0, true, true, true, true, 6, 3),
    (79262, 1490787, 1, -5, false, false, false, false, 6, 9),
    (534857, -483923, 100000, 0, true, true, true, true, 7, 2),
    (-1571955, -1538261, 400000, 1000, false, false, false, false, 1, -1),
    (-1220227, 353087, 1, 5000, false, false, false, false, 2, 5),
    (1122321, -587034, 150000, 5000, true, true, true, true, 9, 2),
    (-1006771, 442642, 50000, 0, false, false, false, false, 2, 5),
    (424388, 1262919, 400000, 1000, true, false, true, true, 7, 8),
    (-139094, -265108, 400000, 2500, true, false, true, true, 5, 3),
    (1745312, -122256, 400000, 10000, true, false, false, true, 11, 4),
    (-1457176, 507000, 50000, 5000, true, false, false, false, 1, 6),
    (-778348, -602718, 150000, 0, true, true, true, true, 3, 2),
    (-1835931, 380353, -30000, 10000, true, true, false, true, 0, 5),
    (612659, -966008, 150000, 0, true, true, true, true, 7, 1),
    (-1514636, -528966, -30000, 0, true, true, true, true, 1, 2),
    (-372309, -1235575, 150000, 5000, true, false, false, true, 4, 0),
    (1629398, -913581, 50000, 1000, true, true, true, true, 11, 1),
    (1376712, 293254, -30000, -5, false, false, false, false, 10, 5),
    (-149237, 1497243, -30000, -5, false, false, false, false, 5, 9),
    (-1103597, 1630511, 400000, 2500, false, false, false, false, 2, 9),
    (344423, -468125, -30000, 2500, true, true, true, true, 7, 3),
    (1008707, -574410, 1, 2500, true, true, true, true, 9, 2),
    (-449073, 202967, 50000, 1000, true, false, true, false, 4, 5),
    (-61937, -652225, 50000, 2500, false, false, false, false, 5, 2),
    (-540844, -271240, 0, 5000, false, false, false, false, 4, 3),
    (-8976, -608415, -30000, 10000, false, false, false, false, 5, 2),
    (-179036, 1084790, 400000, 0, false, false, false, false, 5, 7),
    (1771606, -1484714, 0, 0, false, false, false, false, 11, -1),
    (1862598, -670640, 400000, 5000, false, false, false, false, 11, 2),
    (1016301, -1470711, 100000, 1000, false, false, false, false, 9, -1),
    (-1119939, -1428645, 50000, 10000, true, false, false, false, 2, 0),
    (-491255, -1324939, 100000, 10000, true, true, false, true, 4, 0),
    (-628850, 243720, -30000, 2500, true, true, false, false, 4, 5),
    (-2066821, -1196327, 1, 10000, false, false, false, false, -1, 0),
    (813493, -727129, 0, 2500, true, true, true, true, 8, 2),
    (732265, -1047054, 0, 1000, true, true, true, true, 8, 1),
    (18370, -1479627, -30000, -5, false, false, false, false, 6, -1),
    (-413407, -1592270, 400000, 2500, false, false, false, false, 4, -1),
    (1310897, 1205079, 100000, 1000, true, true, true, true, 10, 8),
    (498887, -1313118, 50000, 0, true, true, true, true, 7, 0),
    (2037605, 658666, 150000, 0, false, false, false, false, 12, 6),
    (1303978, -1214749, 400000, 5000, true, false, false, false, 10, 0),
    (-823523, 1040923, -30000, 0, false, false, false, false, 3, 7),
    (-746875, 28377, 1, 2500, true, true, true, true, 3, 4),
    (1317558, -451749, 1, 2500, false, false, false, false, 10, 3),
    (1385141, -1424578, 100000, -5, true, false, true, false, 10, 0),
    (876257, 96777, 150000, 0, true, true, true, true, 8, 4),
    (931619, 1063137, 50000, 5000, true, true, true, true, 8, 7),
    (1277163, -785758, 0, 5000, true, true, true, true, 9, 2),
    (-806622, 137356, 0, 0, true, true, true, false, 3, 4),
    (1287600, 783450, 100000, 5000, true, false, false, false, 10, 6),
    (-756478, -1094845, 0, 0, true, true, true, true, 3, 1),
    (-924651, 1047150, 400000, 5000, false, false, false, false, 3, 7),
    (-1373153, 762767, -30000, 2500, true, true, true, true, 1, 6),
    (2111742, -919899, 50000, 2500, false, false, false, false, 12, 1),
    (256450, -961300, -30000, 1000, true, true, true, true, 6, 1),
    (-1557152, -1183690, 150000, 5000, true, true, true, true, 1, 0),
    (-464578, -374934, 50000, 0, false, false, false, false, 4, 3),
    (1929487, -320783, 0, 10000, false, false, false, false, 12, 3),
    (1133900, -1278055, 1, 10000, false, false, false, false, 9, 0),
    (-775507, 1045715, 400000, 1000, false, false, false, false, 3, 7),
    (1273062, 938360, 400000, 1000, true, false, true, true, 9, 7),
    (1847435, -872587, -30000, 1000, true, true, true, true, 11, 1),
    (-1770090, 36654, -30000, 1000, true, true, true, true, 0, 4),
    (1097671, -133374, 0, 1000, true, true, true, true, 9, 4),
    (-47520, 1400378, 400000, 1000, true, false, true, false, 5, 8),
    (-1775237, 718638, 400000, -5, true, false, true, true, 0, 6),
    (-1800154, 1161360, 400000, 2500, true, false, true, true, 0, 8),
    (-1132401, -4908, -30000, 5000, true, true, false, true, 2, 4),
    (448710, 1082220, 150000, 2500, true, true, true, true, 7, 7),
    (-29066, 145682, 150000, -5, true, true, true, true, 5, 4),
    (962394, 233970, -30000, 5000, true, true, true, true, 9, 5),
    (-620420, -1541957, 0, 10000, false, false, false, false, 4, -1),
    (1986237, 311496, 50000, 5000, false, false, false, false, 12, 5),
    (1724407, -886833, 400000, 5000, true, false, false, true, 11, 1),
    (1238315, -1190891, 0, 1000, false, false, false, false, 9, 0),
    (887945, 166063, 100000, 0, true, true, true, true, 8, 5),
    (1587489, 475363, -30000, -5, false, false, false, false, 10, 5),
    (-1778024, -1469495, 1, 1000, false, false, false, false, 0, -1),
    (-1430113, 1436439, 100000, -5, false, false, false, false, 1, 8),
    (-1449181, -1412397, 400000, 10000, true, false, false, false, 1, 0),
    (1049741, 1097813, 400000, 1000, true, false, true, true, 9, 7),
    (-1903101, -1361580, -30000, -5, true, true, true, false, 0, 0),
    (-1200709, -827533, 50000, 5000, true, true, true, true, 2, 1),
    (294925, -947473, 1, -5, true, true, true, true, 6, 1),
    (-265055, -1365206, 400000, 2500, false, false, false, false, 5, 0),
    (-4219, -974082, 100000, 10000, true, true, false, true, 5, 1),
    (186805, 274292, 50000, 2500, true, true, true, true, 6, 5),
    (2092909, 373717, 50000, 10000, false, false, false, false, 12, 5),
    (85093, 943130, -30000, 1000, true, true, true, true, 6, 7),
    (556616, -78600, 0, 1000, true, true, true, true, 7, 4),
    (-592465, 52256, 50000, -5, false, false, false, false, 4, 4),
    (213695, 1210784, 100000, 5000, true, true, true, true, 6, 8),
    (-704490, -531275, 0, 10000, true, true, false, true, 3, 2),
    (-1712553, 1028913, 400000, 2500, true, false, true, true, 0, 7),
    (1680363, 688594, -30000, 10000, true, true, false, true, 11, 6),
    (-1242478, -582903, -30000, -5, true, true, true, true, 2, 2),
    (1187262, 1455073, 400000, 2500, false, false, false, false, 9, 9),
    (100918, -64034, 100000, 10000, true, true, true, true, 6, 4),
    (-893624, -128997, 100000, 0, true, true, true, true, 3, 4),
    (1590127, -675112, 50000, 10000, true, false, false, false, 10, 2),
    (-1714902, -396878, 400000, 10000, true, false, false, true, 0, 3),
    (7791, -339462, 1, 10000, true, true, false, true, 6, 3),
    (502688, 1434587, 0, -5, true, true, true, false, 7, 8),
    (-1836523, -710385, 50000, 2500, true, true, true, true, 0, 2),
    (1505832, 111906, -30000, 2500, false, false, false, false, 10, 4),
    (-1719223, -1086255, 150000, 1000, true, true, true, true, 0, 1),
    (-1737617, -1546511, 0, 0, false, false, false, false, 0, -1),
    (857641, -366028, 0, 10000, true, true, true, true, 8, 3),
    (876004, 600232, 50000, 5000, true, true, false, true, 8, 6),
    (406271, 830829, 50000, 1000, true, true, true, true, 7, 7),
    (952197, 976950, 400000, 5000, true, false, true, true, 8, 7),
    (-789371, -1074823, 0, 1000, true, true, true, true, 3, 1),
    (-867472, 251014, 0, 0, false, false, false, false, 3, 5),
    (-906239, 1151194, 400000, 2500, true, false, false, false, 3, 8),
    (1251825, -531698, 0, 0, true, true, true, true, 9, 2),
    (818803, 854454, 1, 10000, true, true, false, true, 8, 7),
    (1602480, 884473, -30000, -5, true, true, true, true, 11, 7),
    (2014339, -597728, 50000, 0, false, false, false, false, 12, 2),
    (-1750885, -1381931, -30000, 0, true, true, true, true, 0, 0),
    (1285680, -861295, 50000, 1000, true, true, true, true, 10, 1),
    (-1630280, 1626826, 0, 0, false, false, false, false, 0, 9),
    (-465279, -1043291, 150000, 1000, true, true, true, true, 4, 1),
    (1363323, 931878, 50000, 10000, true, true, false, true, 10, 7),
    (475288, -1372542, 100000, -5, true, false, true, true, 7, 0),
    (-1713230, 1397959, 400000, 5000, true, false, false, false, 0, 8),
    (-2066738, -66471, 400000, 5000, false, false, false, false, -1, 4),
    (1782930, -1302449, 1, -5, true, true, true, true, 11, 0),
    (1675738, -904354, 50000, 0, true, true, true, true, 11, 1),
    (73006, -665678, 1, 0, true, true, true, true, 6, 2),
    (-1085966, -232744, 1, -5, true, true, true, true, 2, 3),
    (88708, 1345020, 0, 2500, true, true, true, true, 6, 8),
    (1537875, 1236175, 400000, 10000, true, false, false, true, 10, 8),
    (105466, -400093, 1, 1000, true, true, true, true, 6, 3),
    (-1403436, 488309, 0, 1000, true, true, false, false, 1, 6),
    (64130, -649686, 400000, -5, true, false, true, true, 6, 2),
    (-418989, -972325, 1, 2500, true, true, true, true, 4, 1),
    (-509916, -9644, 100000, 10000, false, false, false, false, 4, 4),
    (-113716, -48476, 400000, -5, true, false, true, true, 5, 4),
    (1818392, 340300, 400000, 10000, true, false, false, true, 11, 5),
    (-2066467, -1528781, 150000, -5, false, false, false, false, -1, -1),
    (-158505, 752181, 100000, 1000, true, false, true, false, 5, 6),
    (1164668, 971466, -30000, 0, true, true, true, true, 9, 7),
    (-680968, -1033525, 0, 0, true, true, true, true, 3, 1),
    (-1181374, -1192559, -30000, 1000, true, true, true, true, 2, 0),
    (772926, -1045074, 1, 0, true, true, true, true, 8, 1),
    (-1861045, -1465310, 50000, -5, false, false, false, false, 0, -1),
    (-1762257, 1283462, 0, -5, true, true, true, true, 0, 8),
    (-1728344, -1364161, 400000, 10000, true, false, false, true, 0, 0),
    (928471, -804025, 400000, 10000, true, false, true, true, 8, 1),
    (-1566785, 1529939, 1, 5000, false, false, false, false, 1, 9),
    (-1221447, -605780, 50000, 1000, true, true, true, true, 2, 2),
    (-1180730, -1497979, 0, -5, false, false, false, false, 2, -1),
    (-1386251, 1511710, 1, -5, false, false, false, false, 1, 9),
    (290593, 361166, 0, 1000, true, true, true, true, 6, 5),
    (-1299076, 1536614, 1, 1000, false, false, false, false, 1, 9),
    (350104, -301435, 100000, 5000, true, true, true, true, 7, 3),
    (70765, -1552262, 100000, 2500, false, false, false, false, 6, -1),
    (250563, -1436962, 1, 2500, false, false, false, false, 6, 0),
    (571301, 1586415, -30000, 10000, false, false, false, false, 7, 9),
    (1873671, -433514, -30000, -5, true, true, true, false, 11, 3),
    (-1860110, 91915, 0, 5000, true, true, false, true, 0, 4),
    (-1295404, -185493, 150000, -5, true, false, true, false, 1, 3),
    (-1716365, 616034, -30000, 1000, true, true, true, true, 0, 6),
    (-1357564, 769799, 400000, 2500, true, false, true, true, 1, 6),
    (-690823, 188957, 0, 10000, false, false, false, false, 3, 5),
    (-425207, -430637, 400000, 0, false, false, false, false, 4, 3),
    (-2083412, -181206, 150000, 0, false, false, false, false, -1, 3),
    (2002867, 1275913, 400000, 1000, false, false, false, false, 12, 8),
    (2028851, 845355, 100000, 10000, false, false, false, false, 12, 7),
    (65862, 784338, 50000, 2500, true, true, true, true, 6, 6),
    (-318846, 1293828, 50000, 5000, true, true, false, true, 5, 8),
    (-729245, -1178949, 1, 0, true, true, true, true, 3, 0),
    (1992864, 1284094, -30000, 0, false, false, false, false, 12, 8),
    (620090, -148434, 0, 5000, true, true, true, true, 7, 4),
    (1190140, 1485677, 0, 5000, false, false, false, false, 9, 9),
    (-1908825, -79929, 50000, 2500, true, false, false, false, 0, 4),
    (87843, 155417, -30000, 10000, true, true, true, true, 6, 4),
    (-684670, -49079, 1, 1000, true, true, true, false, 3, 4),
    (1746376, -1107825, -30000, 10000, true, true, false, true, 11, 1),
    (-1835760, -178347, -30000, 2500, true, true, true, true, 0, 3),
    (-817025, 248722, 1, 10000, false, false, false, false, 3, 5),
    (592321, -928854, 150000, 5000, true, true, true, true, 7, 1),
    (37658, 789214, 50000, 1000, true, false, true, true, 6, 6),
    (682245, 297843, 1, -5, true, true, true, true, 8, 5),
    (-124012, 489462, 50000, 2500, true, true, true, true, 5, 6),
    (409229, 1525587, 1, 10000, false, false, false, false, 7, 9),
    (-823169, 1393891, 50000, 1000, true, false, true, false, 3, 8),
    (619405, 888725, -30000, 2500, true, true, true, true, 7, 7),
    (-770069, -649251, 100000, 1000, true, true, true, true, 3, 2),
    (50033, 1416524, 0, 1000, true, true, false, false, 6, 8),
    (-1267399, -820299, 150000, 1000, true, true, true, true, 2, 1),
    (-875809, -372879, 1, 2500, true, true, true, true, 3, 3),
    (1528398, -491514, 50000, 0, true, false, true, false, 10, 2),
    (-1223512, -462221, 50000, 5000, true, true, true, true, 2, 3),
    (1771612, -1497681, 0, 5000, false, false, false, false, 11, -1),
    (1541862, 1268495, 50000, 10000, true, true, false, true, 10, 8),
    (364817, 303134, 0, 1000, true, true, true, true, 7, 5),
    (37663, 892138, 1, 5000, true, true, false, false, 6, 7),
];

#[test]
fn queries_on_the_scattered_level_answer_as_expected() {
    let map = scattered_level();
    for &(x, y, radius, margin, walkable, clear, with_margin, smart, column, row) in &POINTS {
        let at = WorldPos::new(x, y);
        assert_eq!(map.world_to_grid(at), GridPos::new(column, row), "cell of ({x}, {y})");
        assert_eq!(map.is_world_pos_walkable(at), walkable, "walkable at ({x}, {y})");
        assert_eq!(
            map.is_world_pos_clear_circle(at, radius),
            clear,
            "clear at ({x}, {y}), radius {radius}"
        );
        assert_eq!(
            map.is_world_pos_walkable_with_margin(at, margin),
            with_margin,
            "margin {margin} at ({x}, {y})"
        );
        assert_eq!(map.is_world_pos_walkable_smart(at), smart, "smart at ({x}, {y})");
    }
}
