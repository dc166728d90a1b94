use confgen::error::ConfError;
use confgen::parse::Conf;

fn lines(ls: &[&str]) -> Vec<String> {
    ls.iter().map(|s| s.to_string()).collect()
}

#[test]
fn plain_substitution() {
    let mut c = Conf::parse(lines(&[
        "hostname $name",
        "banner \"$motd\"",
        "price \\$cost end",
        "set speed $speed{10,100,auto}",
        "delay $delay{1..100}",
    ]))
    .unwrap();
    c.set("name", "Gateway").unwrap();
    c.set("motd", "Authorized Access Only").unwrap();
    c.set("speed", "auto").unwrap();
    c.set("delay", "42").unwrap();
    let out = c.compile().unwrap();
    assert_eq!(
        out,
        vec![
            "hostname Gateway ",
            "banner \"Authorized Access Only\" ",
            "price $cost end ",
            "set speed auto ",
            "delay 42 ",
        ]
    );
}

#[test]
fn optional_unset_drops_its_line_only() {
    let mut c = Conf::parse(lines(&["a $x", "b ?y", "c $x"])).unwrap();
    c.set("x", "1").unwrap();
    let out = c.compile().unwrap();
    assert_eq!(out, vec!["a 1 ", "c 1 "]);
}

#[test]
fn optional_set_is_rendered() {
    let mut c = Conf::parse(lines(&["a $x", "b ?y", "c $x"])).unwrap();
    c.set("x", "1").unwrap();
    c.set("y", "2").unwrap();
    let out = c.compile().unwrap();
    assert_eq!(out, vec!["a 1 ", "b 2 ", "c 1 "]);
}

#[test]
fn required_unset_is_fatal() {
    let mut c = Conf::parse(lines(&["a $x", "b $z"])).unwrap();
    c.set("x", "1").unwrap();
    assert_eq!(c.compile(), Err(ConfError::MissingValue));
}

#[test]
fn unknown_key_is_fatal() {
    let mut c = Conf::parse(lines(&["a $x"])).unwrap();
    assert_eq!(c.set("nope", "1"), Err(ConfError::KeyError));
}

#[test]
fn selected_rejects_foreign_values() {
    let mut c = Conf::parse(lines(&["set speed $speed{10,100,auto}"])).unwrap();
    assert_eq!(c.set("speed", "fast"), Err(ConfError::ValidationError));
    c.set("speed", "100").unwrap();
    let out = c.compile().unwrap();
    assert_eq!(out, vec!["set speed 100 "]);
}

#[test]
fn range_rejects_out_of_bounds_and_stays_unset() {
    let mut c = Conf::parse(lines(&["delay $delay{1..100}"])).unwrap();
    assert_eq!(c.set("delay", "100"), Err(ConfError::ValidationError));
    assert_eq!(c.set("delay", "0"), Err(ConfError::ValidationError));
    assert_eq!(c.set("delay", "abc"), Err(ConfError::ValidationError));
    // the failed sets left the entry unset, so compilation still fails
    let c2 = {
        let mut c2 = Conf::parse(lines(&["delay $delay{1..100}"])).unwrap();
        assert_eq!(c2.set("delay", "100"), Err(ConfError::ValidationError));
        c2
    };
    assert_eq!(c2.compile(), Err(ConfError::MissingValue));
    c.set("delay", "99").unwrap();
    assert_eq!(c.compile().unwrap(), vec!["delay 99 "]);
}

#[test]
fn negative_range_bounds() {
    let mut c = Conf::parse(lines(&["trim $t{-5..5}"])).unwrap();
    c.set("t", "-3").unwrap();
    assert_eq!(c.compile().unwrap(), vec!["trim -3 "]);
}

#[test]
fn set_present_needs_a_single_option() {
    let mut c = Conf::parse(lines(&["$flag{ready} $speed{10,100} $name"])).unwrap();
    c.set_present("flag").unwrap();
    assert_eq!(c.set_present("speed"), Err(ConfError::ValidationError));
    assert_eq!(c.set_present("name"), Err(ConfError::ValidationError));
    assert_eq!(c.set_present("nope"), Err(ConfError::KeyError));
    c.set("speed", "10").unwrap();
    c.set("name", "n1").unwrap();
    assert_eq!(c.compile().unwrap(), vec!["ready 10 n1 "]);
}

#[test]
fn ip_values_render_by_annotation() {
    // the mask line comes first: a later bare "$a-mask" token would
    // re-declare the name as a plain text parameter
    let mut c = Conf::parse(lines(&[
        "mask $a-mask",
        "addr $a{\\ip}",
        "cidr $b{\\ipslash}",
    ]))
    .unwrap();
    c.set("a", "192.168.1.1/24").unwrap();
    c.set("b", "10.0.0.0/30").unwrap();
    let out = c.compile().unwrap();
    assert_eq!(
        out,
        vec!["mask 255.255.255.0 ", "addr 192.168.1.1 ", "cidr 10.0.0.0/30 "]
    );
}

#[test]
fn dhcp_renders_as_itself() {
    let mut c = Conf::parse(lines(&["addr $a{\\ip}"])).unwrap();
    c.set("a", "dhcp").unwrap();
    assert_eq!(c.compile().unwrap(), vec!["addr dhcp "]);
}

#[test]
fn malformed_ip_value_fails_validation() {
    let mut c = Conf::parse(lines(&["addr $a{\\ip}"])).unwrap();
    assert_eq!(c.set("a", "10.0.0/24"), Err(ConfError::ValidationError));
}

#[test]
fn bad_type_tag_is_a_parse_error() {
    assert_eq!(
        Conf::parse(lines(&["x $a{\\bogus}"])).err(),
        Some(ConfError::ParseError)
    );
    assert_eq!(
        Conf::parse(lines(&["x $a{a..b}"])).err(),
        Some(ConfError::ParseError)
    );
}

#[test]
fn loop_expands_per_appended_entry() {
    let mut c = Conf::parse(lines(&[
        "! for $route",
        "ip route $dest{\\ip}",
        "! end for",
        "done $x",
    ]))
    .unwrap();
    c.set("x", "ok").unwrap();
    c.add_list("route").unwrap();
    c.set_list_item(&[("route", 1)], "dest", "10.0.0.0/8").unwrap();
    c.add_list("route").unwrap();
    c.set_list_item(&[("route", 2)], "dest", "20.0.0.0/8").unwrap();
    let out = c.compile().unwrap();
    assert_eq!(
        out,
        vec!["ip route 10.0.0.0 ", "ip route 20.0.0.0 ", "done ok "]
    );
}

#[test]
fn loop_with_only_the_seed_renders_nothing() {
    let mut c = Conf::parse(lines(&[
        "! for $route",
        "ip route $dest{\\ip}",
        "! end for",
        "done $x",
    ]))
    .unwrap();
    c.set("x", "ok").unwrap();
    let out = c.compile().unwrap();
    assert_eq!(out, vec!["done ok "]);
}

#[test]
fn add_list_count_appends_many() {
    let mut c = Conf::parse(lines(&["# for $port", "port $n{1..65535}", "# end for"])).unwrap();
    c.add_list_count("port", 3).unwrap();
    c.set_list_item(&[("port", 1)], "n", "22").unwrap();
    c.set_list_item(&[("port", 2)], "n", "80").unwrap();
    c.set_list_item(&[("port", 3)], "n", "443").unwrap();
    let out = c.compile().unwrap();
    assert_eq!(out, vec!["port 22 ", "port 80 ", "port 443 "]);
}

#[test]
fn add_list_vec_seeds_and_sets_in_one_step() {
    let mut c = Conf::parse(lines(&[
        "hostname $hostname",
        "! for $interface",
        "interface $iface{\\interface}",
        "ip address $ip{\\ip} $ip-mask{\\ip}",
        "! end for",
        "! end conf",
    ]))
    .unwrap();
    c.set("hostname", "Gateway").unwrap();
    c.add_list_vec(
        "interface",
        &vec![("iface", "FastEthernet 0/1"), ("ip", "192.168.1.1/24")],
    )
    .unwrap();
    c.add_list_vec(
        "interface",
        &vec![("iface", "Serial 0/0/1"), ("ip", "209.165.201.18/30")],
    )
    .unwrap();
    let out = c.compile().unwrap();
    assert_eq!(
        out,
        vec![
            "hostname Gateway ",
            "interface FastEthernet 0/1 ",
            "ip address 192.168.1.1 255.255.255.0 ",
            "interface Serial 0/0/1 ",
            "ip address 209.165.201.18 255.255.255.252 ",
        ]
    );
}

#[test]
fn nested_loop_with_unfilled_inner_list() {
    let mut c = Conf::parse(lines(&[
        "! for $outer",
        "x $v",
        "! for $inner",
        "y $w",
        "! end for",
        "! end for",
    ]))
    .unwrap();
    c.add_list("outer").unwrap();
    c.set_list_item(&[("outer", 1)], "v", "1").unwrap();
    let out = c.compile().unwrap();
    assert_eq!(out, vec!["x 1 "]);
}

#[test]
fn optional_command_lead_is_stripped() {
    let mut c = Conf::parse(lines(&["?\\no shutdown $x"])).unwrap();
    c.set("x", "now").unwrap();
    assert_eq!(c.compile().unwrap(), vec!["no shutdown now "]);
}

#[test]
fn comment_lines_vanish_and_blank_lines_produce_nothing() {
    let mut c = Conf::parse(lines(&[
        "! plain comment",
        "",
        "   ",
        "# another note",
        "a $x",
    ]))
    .unwrap();
    c.set("x", "1").unwrap();
    assert_eq!(c.compile().unwrap(), vec!["a 1 "]);
}

#[test]
fn compiled_line_count_matches_structure() {
    // two content lines at the top, a three-entry loop of one body line:
    // 2 + 3 * 1 lines of output
    let mut c = Conf::parse(lines(&[
        "top $a",
        "! for $l",
        "item $b",
        "! end for",
        "tail $a",
    ]))
    .unwrap();
    c.set("a", "v").unwrap();
    c.add_list_count("l", 3).unwrap();
    c.set_list_item(&[("l", 1)], "b", "1").unwrap();
    c.set_list_item(&[("l", 2)], "b", "2").unwrap();
    c.set_list_item(&[("l", 3)], "b", "3").unwrap();
    let out = c.compile().unwrap();
    assert_eq!(out.len(), 2 + 3 * 1);
    assert_eq!(out, vec!["top v ", "item 1 ", "item 2 ", "item 3 ", "tail v "]);
}

#[test]
fn mac_tag_behaves_as_raw_text() {
    let mut c = Conf::parse(lines(&["hw $m{\\mac}"])).unwrap();
    c.set("m", "00:11:22:33:44:55").unwrap();
    assert_eq!(c.compile().unwrap(), vec!["hw 00:11:22:33:44:55 "]);
}

#[test]
fn empty_template_compiles_to_nothing() {
    let c = Conf::parse(Vec::new()).unwrap();
    assert_eq!(c.compile().unwrap(), Vec::<String>::new());
}

#[test]
fn quotes_survive_around_placeholders() {
    let mut c = Conf::parse(lines(&["addr \"$a{\\ip}\""])).unwrap();
    c.set("a", "10.1.2.3/16").unwrap();
    assert_eq!(c.compile().unwrap(), vec!["addr \"10.1.2.3\" "]);
}

#[test]
fn last_declaration_of_a_name_wins() {
    let mut c = Conf::parse(lines(&["a $x", "b $x{1..10}"])).unwrap();
    assert_eq!(c.set("x", "banana"), Err(ConfError::ValidationError));
    c.set("x", "7").unwrap();
    assert_eq!(c.compile().unwrap(), vec!["a 7 ", "b 7 "]);
}
