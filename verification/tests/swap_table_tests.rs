use route_finder::swap_math::compute_swap_step;
use route_finder::trade::{PoolData, SwapResult, TickData};
use std::collections::BTreeMap;

#[test]
fn steps_from_a_table_of_cases() {
    let cases: [((u128, u128, u64, i64, u32), (u128, u64, u64, u64)); 60] = [
        ((24142714511477173586, 15396697501287975470, 7206951479, 1000000, 3000), (24138344149476694560, 997000, 1707455, 3000)),
        ((58808196133838, 21836468310, 1000000000, 1000, 857988), (58808196133812, 139, 0, 861)),
        ((27524670718889089243, 439583644137860118223759417, 1000000000000000, -1, 999999), (27524670718889130313, 3, 1, 2999997)),
        ((18294241058173162883880700287, 0, 1, 0, 100), (0, 0, 991732794, 0)),
        ((6220748567297184842810764925, 22177897811432906754, 1000000000000, 1000, 10000), (4663736105612710516995549086, 990, 18446744073709551615, 10)),
        ((35527155373588900662, 15276208992308070984826, 1000000000, -4376605571428826066, 3000), (15276208992308070984826, 826199017889, 518021866, 2486055220)),
        ((68040845828277386833843634455, 17319679862857954049, 1000000, 9223372036854775807, 0), (17319679862857954049, 1065075, 3688501642299578, 0)),
        ((1267650600228229401496703205376, 16145324803807514106, 0, 1000, 100), (1267650600228229401496703205376, 0, 0, 0)),
        ((1267650600228229401496703205376, 336195691322635178, 1, 9223372036854775807, 3000), (336195691322635178, 55, 68719476735, 1)),
        ((13748615644184624064, 7048087111762247031982875514, 5606118934334732809, 1000, 999999), (13748615644184624064, 0, 0, 1000)),
        ((79226673515401279992447579062, 1745265058382886, 1000000000000, 0, 0), (79226673515401279992447579062, 0, 0, 0)),
        ((42961123936843760335, 2480364962178092083180283307, 1000000000000000, 0, 759597), (42961123936843760335, 0, 0, 0)),
        ((31054912827251693184, 23987988175515789921, 2701257435, 1000000, 3000), (31035628685183088437, 997000, 2823882, 3000)),
        ((23277229120878934820598, 18389726497102972717, 1000000000000, -1000, 0), (23277229120860488076524, 1, 1000, 0)),
        ((1267650600228229401496703205376, 25768534301350934672, 1000000000000000, -1000000000000, 868976), (1267650600228210954752629495824, 1, 1000000000000, 7)),
        ((4295048017, 27856997607891253422, 0, -1000000000000, 0), (4295048017, 0, 0, 0)),
        ((35123161417513552009, 21406086576475204811845393999, 0, 1000000, 500), (35123161417513552009, 0, 0, 0)),
        ((18446744073709551616, 39249032257454316971217103294, 1000000000000000, 1000000000000, 1), (18465190799336517093, 999999000000, 999000000998, 1000000)),
        ((4295048017, 404068416214549013, 1000000000000, i64::MIN, 174253), (4304291587, 1, 9223372036854775808, 1)),
        ((4295048017, 30577556057663564276461462630, 7, 3143934881257565236, 0), (30577556057663564276461462630, 11603288448, 30064206035, 0)),
        ((0, 79226673515401279992447579062, 1, i64::MIN, 414011), (79226673515401279992447579062, 4294886578, 0, 3034408986)),
        ((27307705884922760, 29960971970741754165, 3268259028394713013, 9223372036854775807, 500), (29960971970741754165, 5303427428474167116, 18446744073709551615, 2653040234354261)),
        ((18446744073709551616, 55566698281016, 7, 1000, 10000), (129515755783316812, 990, 6, 10)),
        ((40737387668543959799720613426, 45599221754603616927603482664, 7, 1000, 100), (40737390301157864033412336909, 999, 0, 1)),
        ((3239037387571, 4295048017, 9803658179, 0, 0), (3239037387571, 0, 0, 0)),
        ((1267650600228229401496703205376, 170438646508896453018260245, 0, -963970443, 0), (1267650600228229401496703205376, 0, 0, 0)),
        ((0, 1, 3833122935, 0, 500), (0, 0, 0, 0)),
        ((18446744073709551616, 3672485135578444599, 1000000000000, 5861775583626927961, 1), (3672485135578444599, 4022959492743, 800914181879, 4022964)),
        ((7240454497821885303340, 79226673515401279992447579062, 1000000000, 1, 0), (7240454497840332047413, 1, 0, 0)),
        ((6150258556834, 31440885722149759353, 1000000000000, -1000000, 854396), (6150258556837, 1, 1000000, 6)),
        ((151121584295, 16624815631192451606, 7, 1000000000000, 500), (16624815631192451606, 7, 854459063, 1)),
        ((33535447709995820992350428213, 681985256745087679, 1000000000000, 1, 799102), (33535447709995820992350428213, 0, 0, 1)),
        ((1123306410170286620552600, 14475849242720829871, 18446744073709551615, 1000, 242889), (1123306410167481049189136, 757, 2805571363463, 243)),
        ((4295048017, 28557341489290208386174166926, 7, 1000, 0), (2635249153391373850302, 1000, 30064206035, 0)),
        ((340282366920938463463374607431768211455, 55107159054428208819600018361, 1000000000000, 1, 562321), (340282366920938463463374607431768211455, 0, 0, 1)),
        ((8102540826607870876601701, 15761429900365795922196535226, 1000000000000, -1, 0), (8102544385566374400296667, 192931527066, 1, 0)),
        ((1267650600228229401496703205376, 50640529225845175846858169686, 0, 1, 10000), (1267650600228229401496703205376, 0, 0, 0)),
        ((1153759581832679147631, 23030537172867092790, 1000000, 708857574231991011, 0), (23030537172867092790, 784981, 61296944, 0)),
        ((30364991215208546667, 18446744073709551616, 1, -1000000000000, 59323), (18446744073709551616, 1, 0, 1)),
        ((5187910320144965262233390560, 15262608994393635688, 5627999626373593657, -1, 0), (5187910320144965262233390556, 1, 1, 0)),
        ((18635698147305200037, 807183425021, 0, 1000000000000, 0), (18635698147305200037, 0, 0, 0)),
        ((28005686908709734655, 17773137958452348828, 18446744073709551615, 0, 10000), (28005686908709734655, 0, 0, 0)),
        ((9330526338842260347, 53608684013611899108126206820, 2839250007, -1000, 3000), (9330528001064182483, 256, 1000, 1)),
        ((14505828868769505, 17389633575346655710, 1000000, 1000000, 533674), (8616702205785449871, 466326, 1269537230, 533674)),
        ((9536445908268693556, 79655791200698166750, 17582413432870661577, 1000000, 3000), (9536445908269739567, 997000, 3730451, 3000)),
        ((5090012744684224270138798644, 1210005317007282, 0, 4939196794186361333, 134111), (5090012744684224270138798644, 0, 0, 0)),
        ((79226673515401279992447579062, 22996127691582109444915921296, 1000000000000000, 1000, 832800), (79169889224411577058117892618, 167, 18446744073709551615, 833)),
        ((35493383974620473343235012064, 18446744073709551616, 7, -686289438, 826315), (33684840314152479235552636091, 1, 686289438, 5)),
        ((6638192048057218, 42535176140712070510330836038, 7, 1000000, 10000), (2608896668491400062320075, 990000, 19452, 10000)),
        ((57807554548937978353426556031, 27293831370439815963, 7, 1, 3000), (57807554548937978353426556031, 0, 0, 1)),
        ((7978330094263579930012, 3992689495303065, 1000000, -1000000, 100), (7959883350189870378396, 6, 1000000, 1)),
        ((79226673515401279992447579062, 43735941216287430248845526535, 7609375134256712998, 1000000000000, 779285), (43735941216287430248845526535, 1437718229, 18446744073709551615, 5076194415)),
        ((1255232652739277668176307, 102575873972592682, 0, 1000000, 500), (1255232652739277668176307, 0, 0, 0)),
        ((44649466688131102537872970, 26011569344704264904, 1000000000000000, 1000000000000, 10000), (18625302127787784272640, 990000000000, 18446744073709551615, 10000000000)),
        ((12647118148958108098, 18446744073709551616, 4656860769206123883, 1000000000000, 500), (12647122108174759708, 999500000000, 2126370585710, 500000000)),
        ((1267650600228229401496703205376, 51007239721682097136688645310, 1000000000, -1000000000000, 1), (1267650581781485327787151589376, 1, 1000000000000, 1)),
        ((34975458341229047298, 50566373591291826812120, 1, -1000000000000, 0), (50566373591291826812120, 2740, 0, 0)),
        ((4295048017, 12669357324423077647, 1000000000000, 6669284654253355154, 999999), (12669357324423077647, 686807236524, 18446744073709551615, 686806549716763476)),
        ((47771012357111607336319741212, 76760791072236789699339196095, 905827850709423418, -1000000000000, 3000), (76760791072236789699339196095, 18446744073709551615, 132101091, 55506752478564348)),
        ((109081977185314443, 4295048017, 5049089569333391338, 1000000000000, 999999), (109081977185314316, 994102, 34, 999999005898)),
    ];
    for ((current, target, liquidity, amount, fee), expected) in cases {
        assert_eq!(
            compute_swap_step(current, target, liquidity, amount, fee),
            expected,
            "{} {} {} {} {}",
            current, target, liquidity, amount, fee
        );
    }
}

fn pool(fee: u32, price: u128, liquidity: u128, tick: i32, ticks: &[(i32, i128)]) -> PoolData {
    let mut map = BTreeMap::new();
    for (index, net) in ticks {
        map.insert(
            *index,
            TickData {
                index: *index,
                liquidity_gross: net.unsigned_abs(),
                liquidity_net: *net,
                fee_growth_outside_a_x64: 0,
                fee_growth_outside_b_x64: 0,
                initialized: true,
            },
        );
    }
    PoolData {
        id: 1,
        token_a_id: "A".to_string(),
        token_b_id: "B".to_string(),
        fee,
        sqrt_price_x64: price,
        liquidity,
        tick_current: tick,
        ticks: map,
        tick_spacing: 60,
    }
}

#[test]
fn swaps_from_a_table_of_cases() {
    let cases: Vec<(PoolData, bool, i128, Option<u128>, (u128, u128, u128, i32))> = vec![
        (pool(10000, 20642950881890583932, 50000000000, 2249, &[(2250, -14098747113), (2252, -24371843575), (2253, 46512003738)]), true, -1000000000, Some(20434665844882988565), (460016369, 564557724, 20434665844882988565, 2249)),
        (pool(100, 20214159157499829383, 1000000000000, 1830, &[(800, -267015351914), (1600, -930135260016), (2200, -222767385848)]), false, -1475757287, None, (1775142303, 1475757287, 20246901478676642165, 1862)),
        (pool(10000, 20009474716654467282, 1000000000000, 1626, &[]), false, -1000000000, Some(20031053856910953027), (1181623776, 993148918, 20031053856910953027, 1626)),
        (pool(500, 18058905531859920964, 1000000000000, -425, &[(-426, -558924213402), (-422, 35766297582), (-421, 892704572660)]), false, -1000000, None, (958874, 1000000, 18058923211098434450, -425)),
        (pool(500, 16612590252895537596, 1000000000, -2095, &[(-2280, 715663643), (-2220, 920042781), (-2160, 250777806), (-1860, 579152377), (-1800, -223771810)]), false, 1000000, Some(16665537410677742613), (1000000, 1231021, 16631027773597210292, -2073)),
        (pool(3000, 19911233345672266064, 1180591620717411303424, 1528, &[(1490, 447254968785633413397)]), true, -1000000, Some(19669804082989858020), (860892, 1000000, 19911233345671266063, 1527)),
        (pool(100, 16041761395187354277, 1000000000000, -2794, &[(-3120, -494654985481), (-3060, 889255696577), (-2940, -20369875982), (-2880, 137684544578), (-2460, 217044377924)]), true, -1000000000, None, (1323970973, 1000000000, 16023314651113644725, -2818)),
        (pool(3000, 16444573803543844849, 1180591620717411303424, -2298, &[(-2200, -431812228801379761596), (-2000, 727755405694678151541), (-1800, 949785382955274168449), (-1200, -1160066201799422440676)]), false, -9256783995, None, (7378545696, 9256783995, 16444573810900254907, -2298)),
        (pool(100, 16986892277819389366, 50000000000, -1649, &[(-3000, 28551857858), (-2000, -24707789517), (-1600, -10299863001), (-800, 21652539904)]), true, 1000000000, Some(16933470421786776688), (171313752, 144800230, 16933470421786776688, -1649)),
        (pool(10000, 17420379286801558418, 50000000000, -1145, &[(-1500, 22966256607), (-1380, -15521827713), (-1320, -11594866575), (-1140, -20364089146), (-1020, 549221742), (-960, 12569703346)]), false, 1000000000, None, (1000000000, 1078614282, 17894438460795197730, -608)),
        (pool(500, 15892428984385576210, 1180591620717411303424, -2982, &[(-3030, 1096244998146319545264), (-3010, 33972116057836104675), (-2990, -295335679044421407236), (-2970, -56926770017490890444), (-2930, -137687875690995437778)]), false, 100000000000, None, (100000000000, 134660952424, 15892429084335576210, -2982)),
        (pool(500, 19720023575109852836, 1180591620717411303424, 1335, &[(200, -1173918181554133901971), (600, -192609779986898184682), (1400, -444196166825217231594), (2000, -370587848740239578136)]), true, 1267650600228229401496703205376, None, (9205933324340535099558, 19683110933016719856, 36912642093131980, -124288)),
        (pool(100, 17565562854197278683, 1000000000000, -979, &[(-984, 725521799361), (-979, 509412614355), (-973, 512040350168)]), true, 1000000, None, (1000000, 906652, 17565546129411132075, -980)),
        (pool(100, 20979786068539426422, 1180591620717411303424, 2573, &[(1400, -423486390410000507557), (1800, -938463304026841986969), (2000, 367402138680243277446), (2400, -1050198053185962276916), (2600, 1021892866482831750017)]), false, 1000000000, None, (1000000000, 773025646, 20979786069539326422, 2573)),
        (pool(10000, 18790228226225446083, 1180591620717411303424, 369, &[(0, -949081402589526709363), (60, 74899596711281165700), (420, -695687392873575944246), (480, -352903249474598625426), (600, 1033495438629954226399)]), false, -2604209325, None, (2729388520, 2604209325, 18790228228927540717, 369)),
        (pool(3000, 16097940448691087687, 1180591620717411303424, -2725, &[(-2700, -1068395730170229720828), (-2640, -321132747395917719492), (-2460, 578761467399210846081)]), true, -1000000000, None, (1317054221, 1000000000, 16097940447691087686, -2725)),
        (pool(3000, 16211880522007020048, 1000000000000, -2583, &[(-2400, -620884697033), (-2200, -526886556887), (-1600, 796686522242)]), true, 1267650600228229401496703205376, Some(16012904949223121252), (14181455535, 10786487414, 16012904949223121252, -2583)),
        (pool(10000, 19067517389524950657, 1000000000, 662, &[(-200, -827884643), (400, -181853032), (1200, 868865564), (1400, -334676626), (1600, -810506547), (1800, 217507960)]), true, 1000000000, None, (1000000000, 679747762, 12474549243530647643, -7825)),
        (pool(100, 17037075084188685162, 1180591620717411303424, -1590, &[(-1620, -143969456263054662514), (-1610, -453379355388208145017), (-1580, -472515301994961564006), (-1530, -731349363455808159266)]), false, 1000000, Some(17294544530750285501), (1000000, 1172211, 17037075084189685062, -1590)),
        (pool(3000, 19779269508055100676, 1000000000000, 1395, &[(1080, 151457918557), (1140, -202148937708), (1260, 672074944515), (1620, 350537467992)]), false, 1000000000, None, (1000000000, 866384100, 19797660911896589098, 1413)),
        (pool(100, 16648048654023732958, 1180591620717411303424, -2052, &[(-2000, 403322817216131915971)]), true, 1267650600228229401496703205376, None, (9223372036854775807000, 16611233070773704041, 36815583250027917, -124341)),
        (pool(3000, 17423863536862711597, 50000000000, -1141, &[(-2200, 39721721930), (-1400, -26765987759), (0, -38135710464)]), false, 1267650600228229401496703205376, None, (51109105182754678156, 14799575767, 79226673515401279992447579061, 441580)),
        (pool(500, 17174026939791562364, 1000000000000, -1430, &[(-1490, 298622834319), (-1470, -593102279414), (-1450, 617435290902), (-1420, 250014383342), (-1390, -289339082141), (-1380, -129383624082), (-1370, 267337704515)]), false, -1000000, Some(17320504514689547203), (867207, 1000000, 17174042928926270797, -1430)),
        (pool(10000, 19523718633896209962, 50000000000, 1134, &[(840, 48445148715), (960, 5324950086), (1020, -41530571054), (1260, -28390440048), (1440, 19829738746)]), true, 100000000000, Some(19437132191137967273), (212573784, 234693023, 19437132191137967273, 1134)),
    ];
    for (pool, zero_for_one, amount, limit, (amount_in, amount_out, price, tick)) in cases {
        assert_eq!(
            pool.swap(zero_for_one, amount, limit),
            SwapResult {
                amount_in,
                amount_out,
                sqrt_price_x64_after: price,
                tick_after: tick,
            },
            "{:?} {} {} {:?}",
            pool, zero_for_one, amount, limit
        );
    }
}
