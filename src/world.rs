//! A small reference dataset of countries and their cities, with insertion,
//! deletion, lookup and sorting.
use vstd::prelude::*;
use crate::json::quoted;
use crate::json::push_quoted;
use crate::table::{lemma_map_of_at, StrMap};
use crate::text::{push_str, str_eq};

verus! {

/// A city.
#[derive(Debug, Clone)]
pub struct City<'a> {
    /// Name of the city.
    pub name: &'a str,
    /// The GMT offsets in use in the city.
    pub gmt: Vec<&'a str>,
    /// Latitude of the city.
    pub latitude: &'a str,
    /// Longitude of the city.
    pub longitude: &'a str,
    /// Altitude of the city.
    pub altitude: &'a str,
}

/// The details of a country, its cities included.
#[derive(Debug)]
pub struct Details<'a> {
    /// National flag emoji.
    pub flag: &'a str,
    /// Country calling code.
    pub calling_code: &'a str,
    /// Official name.
    pub name: &'a str,
    /// Currency.
    pub currency: &'a str,
    /// Capital city.
    pub capital: &'a str,
    /// The cities of the country.
    pub cities: Vec<City<'a>>,
}

/// A collection of countries keyed by their short code.
pub struct Country<'a> {
    data: StrMap<Details<'a>>,
}

/// The record that a short code, the five details (flag, calling code,
/// name, currency, capital) and the cities make.
pub open spec fn details_of<'a>(d: Seq<&'a str>, cities: Vec<City<'a>>) -> Details<'a> {
    Details { flag: d[0], calling_code: d[1], name: d[2], currency: d[3], capital: d[4], cities }
}

/// `m` after each entry is stored in turn, a later one replacing an earlier
/// record of the same code.
pub open spec fn with_entries<'a>(
    m: Map<Seq<char>, Details<'a>>,
    es: Seq<(&'a str, Vec<&'a str>, Vec<City<'a>>)>,
) -> Map<Seq<char>, Details<'a>>
    decreases es.len(),
{
    if es.len() == 0 {
        m
    } else {
        with_entries(m, es.drop_last()).insert(es.last().0@, details_of(es.last().1@, es.last().2))
    }
}

/// Whether `d` has these header fields and `n` cities.
pub open spec fn is_record(
    d: Details,
    flag: &str,
    calling_code: &str,
    name: &str,
    currency: &str,
    capital: &str,
    n: nat,
) -> bool {
    &&& d.flag@ == flag@
    &&& d.calling_code@ == calling_code@
    &&& d.name@ == name@
    &&& d.currency@ == currency@
    &&& d.capital@ == capital@
    &&& d.cities@.len() == n
}

/// Whether `c` is the city with these fields.
pub open spec fn is_city(
    c: City,
    name: &str,
    gmt: Seq<&str>,
    latitude: &str,
    longitude: &str,
    altitude: &str,
) -> bool {
    &&& c.name@ == name@
    &&& c.gmt@ == gmt
    &&& c.latitude@ == latitude@
    &&& c.longitude@ == longitude@
    &&& c.altitude@ == altitude@
}

/// The records that a new collection starts with.
pub open spec fn seeded_world(m: Map<Seq<char>, Details>) -> bool {
    &&& m.contains_key("BH"@)
    &&& is_record(m["BH"@], "🇧🇭", "973", "Bahrain", "BHD", "Manama", 2)
    &&& is_city(m["BH"@].cities@[0], "Manama", seq!["GMT+3"], "26.22787", "50.58565", "10")
    &&& is_city(m["BH"@].cities@[1], "Riffa", seq!["GMT+3"], "26.129999", "50.555000", "15")
    &&& m.contains_key("CA"@)
    &&& is_record(m["CA"@], "🇨🇦", "1", "Canada", "CAD", "Ottawa", 2)
    &&& is_city(m["CA"@].cities@[0], "Ottawa", seq!["GMT-5", "GMT-4"], "45.4215", "-75.6972", "70")
    &&& is_city(m["CA"@].cities@[1], "Toronto", seq!["GMT-5", "GMT-4"], "43.65107", "-79.347015", "76.5")
    &&& m.contains_key("DZ"@)
    &&& is_record(m["DZ"@], "🇩🇿", "213", "Algeria", "DZD", "Algiers", 2)
    &&& is_city(m["DZ"@].cities@[0], "Algiers", seq!["GMT+1"], "36.737232", "3.086472", "424")
    &&& is_city(m["DZ"@].cities@[1], "Oran", seq!["GMT+1"], "35.69694440", "0.63305560", "0.9")
    &&& m.contains_key("SA"@)
    &&& is_record(m["SA"@], "🇸🇦", "966", "Saudi Arabia", "SAR", "Riyadh", 2)
    &&& is_city(m["SA"@].cities@[0], "Riyadh", seq!["GMT+3"], "24.7136", "46.6753", "612")
    &&& is_city(m["SA"@].cities@[1], "Jeddah", seq!["GMT+3"], "21.2854", "39.2376", "12")
    &&& m.contains_key("SD"@)
    &&& is_record(m["SD"@], "🇸🇩", "249", "Sudan", "SDG", "Khartoum", 3)
    &&& is_city(m["SD"@].cities@[0], "Khartoum", seq!["GMT+2"], "15.5007", "32.5599", "385")
    &&& is_city(m["SD"@].cities@[1], "Omdurman", seq!["GMT+2"], "15.6866", "32.4752", "375")
    &&& is_city(m["SD"@].cities@[2], "Khartoum Bahri", seq!["GMT+2"], "15.6151", "32.552", "360")
    &&& m.contains_key("GB"@)
    &&& is_record(m["GB"@], "🇬🇧", "44", "United Kingdom", "GBP", "London", 2)
    &&& is_city(m["GB"@].cities@[0], "London", seq!["GMT+0", "GMT+1"], "51.509865", "-0.118092", "24")
    &&& is_city(m["GB"@].cities@[1], "Manchester", seq!["GMT+0", "GMT+1"], "53.4808", "-2.2426", "38")
    &&& m.contains_key("UK"@)
    &&& is_record(m["UK"@], "🇬🇧", "44", "United Kingdom", "GBP", "London", 2)
    &&& is_city(m["UK"@].cities@[0], "London", seq!["GMT+0", "GMT+1"], "51.509865", "-0.118092", "24")
    &&& is_city(m["UK"@].cities@[1], "Birmingham", seq!["GMT+0", "GMT+1"], "52.4862", "-1.8904", "150")
    &&& m.contains_key("US"@)
    &&& is_record(m["US"@], "🇺🇸", "1", "United States", "USD", "Washington, D.C.", 2)
    &&& is_city(m["US"@].cities@[0], "Washington, D.C.", seq!["GMT-5", "GMT-4"], "38.89511", "-77.03637", "125")
    &&& is_city(m["US"@].cities@[1], "New York", seq!["GMT-5", "GMT-4"], "40.730610", "-73.935242", "10")
}

/// Whether two country records agree on all but their cities.
pub open spec fn same_header(a: Details, b: Details) -> bool {
    a.flag == b.flag && a.calling_code == b.calling_code && a.name == b.name && a.currency
        == b.currency && a.capital == b.capital
}

/// Whether `after` is `before` with the cities of `code` set to `cities`;
/// when `before` has no country `code`, whether the two are equal.
pub open spec fn cities_set<'a>(
    before: Map<Seq<char>, Details<'a>>,
    after: Map<Seq<char>, Details<'a>>,
    code: Seq<char>,
    cities: Seq<City<'a>>,
) -> bool {
    if before.contains_key(code) {
        &&& after.dom() == before.dom()
        &&& forall|k: Seq<char>| #[trigger] before.contains_key(k) && k != code ==> after[k] == before[k]
        &&& same_header(after[code], before[code])
        &&& after[code].cities@ == cities
    } else {
        after == before
    }
}

/// The position of the first city named `name`, or -1.
pub open spec fn city_pos(cities: Seq<City>, name: Seq<char>) -> int
    decreases cities.len(),
{
    if cities.len() == 0 {
        -1
    } else if cities[0].name@ == name {
        0
    } else {
        let p = city_pos(cities.drop_first(), name);
        if p < 0 {
            -1
        } else {
            p + 1
        }
    }
}

/// `cities` with `c` in place of the first city of its name, or with `c`
/// added at the end if there is none.
pub open spec fn with_city<'a>(cities: Seq<City<'a>>, c: City<'a>) -> Seq<City<'a>> {
    let p = city_pos(cities, c.name@);
    if p < 0 {
        cities.push(c)
    } else {
        cities.update(p, c)
    }
}

/// `cities` after each of `news` is put in with [`with_city`], in order.
pub open spec fn with_cities<'a>(cities: Seq<City<'a>>, news: Seq<City<'a>>) -> Seq<City<'a>>
    decreases news.len(),
{
    if news.len() == 0 {
        cities
    } else {
        with_city(with_cities(cities, news.drop_last()), news.last())
    }
}

/// The cities whose names are not among `names`, in their order.
pub open spec fn kept_cities<'a>(cities: Seq<City<'a>>, names: Seq<Seq<char>>) -> Seq<City<'a>>
    decreases cities.len(),
{
    if cities.len() == 0 {
        Seq::empty()
    } else {
        let pre = kept_cities(cities.drop_last(), names);
        if names.contains(cities.last().name@) {
            pre
        } else {
            pre.push(cities.last())
        }
    }
}

/// Names as character sequences.
pub open spec fn name_views(names: Seq<&str>) -> Seq<Seq<char>> {
    names.map_values(|s: &str| s@)
}

proof fn lemma_city_pos(cities: Seq<City>, name: Seq<char>, i: int)
    requires
        0 <= i <= cities.len(),
        forall|j: int| 0 <= j < i ==> (#[trigger] cities[j]).name@ != name,
        i == cities.len() || cities[i].name@ == name,
    ensures
        city_pos(cities, name) == if i == cities.len() { -1 } else { i },
    decreases cities.len(),
{
    if cities.len() > 0 && i > 0 {
        assert forall|j: int| 0 <= j < i - 1 implies (#[trigger] cities.drop_first()[j]).name@ != name by {
            assert(cities.drop_first()[j] == cities[j + 1]);
        }
        lemma_city_pos(cities.drop_first(), name, i - 1);
    }
}

/// The position of the first city named `name`, if any.
fn find_city(cities: &Vec<City>, name: &str) -> (r: Option<usize>)
    ensures
        match r {
            Some(i) => i < cities.len() && city_pos(cities@, name@) == i,
            None => city_pos(cities@, name@) == -1,
        },
{
    let mut i: usize = 0;
    while i < cities.len()
        invariant
            i <= cities.len(),
            forall|j: int| 0 <= j < i ==> (#[trigger] cities@[j]).name@ != name@,
        decreases cities.len() - i,
    {
        if str_eq(cities[i].name, name) {
            proof { lemma_city_pos(cities@, name@, i as int); }
            return Some(i);
        }
        i = i + 1;
    }
    proof { lemma_city_pos(cities@, name@, i as int); }
    None
}

/// Puts `c` in place of the first city of its name, or adds it at the end.
fn put_city<'a>(cities: &mut Vec<City<'a>>, c: City<'a>)
    ensures
        final(cities)@ == with_city(old(cities)@, c),
{
    match find_city(cities, c.name) {
        Some(i) => {
            cities.set(i, c);
        },
        None => {
            cities.push(c);
        },
    }
}

/// Whether `name` is among `names`.
fn among(names: &[&str], name: &str) -> (r: bool)
    ensures
        r == name_views(names@).contains(name@),
{
    let ghost nv = name_views(names@);
    let mut i: usize = 0;
    while i < names.len()
        invariant
            nv == name_views(names@),
            i <= names.len(),
            forall|j: int| 0 <= j < i ==> nv[j] != name@,
        decreases names.len() - i,
    {
        if str_eq(names[i], name) {
            assert(nv[i as int] == name@);
            return true;
        }
        i = i + 1;
    }
    false
}

/// The cities of `cities` whose names are not among `names`.
fn keep_cities<'a>(cities: Vec<City<'a>>, names: &[&str]) -> (r: Vec<City<'a>>)
    ensures
        r@ == kept_cities(cities@, name_views(names@)),
{
    let ghost all = cities@;
    let mut r: Vec<City<'a>> = Vec::new();
    assert(all.take(0) =~= Seq::<City<'a>>::empty());
    for c in it: cities.into_iter()
        invariant
            it.seq() == all,
            r@ == kept_cities(all.take(it.index() as int), name_views(names@)),
    {
        let ghost i = it.index() as int;
        assert(c == all[i]);
        assert(all.take(i + 1).drop_last() =~= all.take(i));
        if !among(names, c.name) {
            r.push(c);
        }
    }
    assert(all.take(all.len() as int) =~= all);
    r
}

impl<'a> Country<'a> {
    /// A collection seeded with a few countries and some of their cities:
    /// BH, CA, DZ, SA, SD, GB, UK and US, with the records that
    /// [`seeded_world`] lists.
    pub fn new() -> (r: Self)
        ensures
            r.wf(),
            r.view().dom() == set!["BH"@, "CA"@, "DZ"@, "SA"@, "SD"@, "GB"@, "UK"@, "US"@],
            seeded_world(r.view()),
    {
        let mut r = Country { data: StrMap::new() };
        r.insert_one(
            "BH",
            vec!["🇧🇭", "973", "Bahrain", "BHD", "Manama"],
            vec![
                City {
                    name: "Manama",
                    gmt: vec!["GMT+3"],
                    latitude: "26.22787",
                    longitude: "50.58565",
                    altitude: "10",
                },
                City {
                    name: "Riffa",
                    gmt: vec!["GMT+3"],
                    latitude: "26.129999",
                    longitude: "50.555000",
                    altitude: "15",
                },
            ],
        );
        r.insert_one(
            "CA",
            vec!["🇨🇦", "1", "Canada", "CAD", "Ottawa"],
            vec![
                City {
                    name: "Ottawa",
                    gmt: vec!["GMT-5", "GMT-4"],
                    latitude: "45.4215",
                    longitude: "-75.6972",
                    altitude: "70",
                },
                City {
                    name: "Toronto",
                    gmt: vec!["GMT-5", "GMT-4"],
                    latitude: "43.65107",
                    longitude: "-79.347015",
                    altitude: "76.5",
                },
            ],
        );
        r.insert_one(
            "DZ",
            vec!["🇩🇿", "213", "Algeria", "DZD", "Algiers"],
            vec![
                City {
                    name: "Algiers",
                    gmt: vec!["GMT+1"],
                    latitude: "36.737232",
                    longitude: "3.086472",
                    altitude: "424",
                },
                City {
                    name: "Oran",
                    gmt: vec!["GMT+1"],
                    latitude: "35.69694440",
                    longitude: "0.63305560",
                    altitude: "0.9",
                },
            ],
        );
        r.insert_one(
            "SA",
            vec!["🇸🇦", "966", "Saudi Arabia", "SAR", "Riyadh"],
            vec![
                City {
                    name: "Riyadh",
                    gmt: vec!["GMT+3"],
                    latitude: "24.7136",
                    longitude: "46.6753",
                    altitude: "612",
                },
                City {
                    name: "Jeddah",
                    gmt: vec!["GMT+3"],
                    latitude: "21.2854",
                    longitude: "39.2376",
                    altitude: "12",
                },
            ],
        );
        r.insert_one(
            "SD",
            vec!["🇸🇩", "249", "Sudan", "SDG", "Khartoum"],
            vec![
                City {
                    name: "Khartoum",
                    gmt: vec!["GMT+2"],
                    latitude: "15.5007",
                    longitude: "32.5599",
                    altitude: "385",
                },
                City {
                    name: "Omdurman",
                    gmt: vec!["GMT+2"],
                    latitude: "15.6866",
                    longitude: "32.4752",
                    altitude: "375",
                },
                City {
                    name: "Khartoum Bahri",
                    gmt: vec!["GMT+2"],
                    latitude: "15.6151",
                    longitude: "32.552",
                    altitude: "360",
                },
            ],
        );
        r.insert_one(
            "GB",
            vec!["🇬🇧", "44", "United Kingdom", "GBP", "London"],
            vec![
                City {
                    name: "London",
                    gmt: vec!["GMT+0", "GMT+1"],
                    latitude: "51.509865",
                    longitude: "-0.118092",
                    altitude: "24",
                },
                City {
                    name: "Manchester",
                    gmt: vec!["GMT+0", "GMT+1"],
                    latitude: "53.4808",
                    longitude: "-2.2426",
                    altitude: "38",
                },
            ],
        );
        r.insert_one(
            "UK",
            vec!["🇬🇧", "44", "United Kingdom", "GBP", "London"],
            vec![
                City {
                    name: "London",
                    gmt: vec!["GMT+0", "GMT+1"],
                    latitude: "51.509865",
                    longitude: "-0.118092",
                    altitude: "24",
                },
                City {
                    name: "Birmingham",
                    gmt: vec!["GMT+0", "GMT+1"],
                    latitude: "52.4862",
                    longitude: "-1.8904",
                    altitude: "150",
                },
            ],
        );
        r.insert_one(
            "US",
            vec!["🇺🇸", "1", "United States", "USD", "Washington, D.C."],
            vec![
                City {
                    name: "Washington, D.C.",
                    gmt: vec!["GMT-5", "GMT-4"],
                    latitude: "38.89511",
                    longitude: "-77.03637",
                    altitude: "125",
                },
                City {
                    name: "New York",
                    gmt: vec!["GMT-5", "GMT-4"],
                    latitude: "40.730610",
                    longitude: "-73.935242",
                    altitude: "10",
                },
            ],
        );
        assert(r.view().dom() =~= set!["BH"@, "CA"@, "DZ"@, "SA"@, "SD"@, "GB"@, "UK"@, "US"@]);
        proof {
            reveal_strlit("BH");
            reveal_strlit("CA");
            reveal_strlit("DZ");
            reveal_strlit("SA");
            reveal_strlit("SD");
            reveal_strlit("GB");
            reveal_strlit("UK");
            reveal_strlit("US");
            assert("BH"@[0] == 'B' && "BH"@[1] == 'H');
            assert("CA"@[0] == 'C' && "CA"@[1] == 'A');
            assert("DZ"@[0] == 'D' && "DZ"@[1] == 'Z');
            assert("SA"@[0] == 'S' && "SA"@[1] == 'A');
            assert("SD"@[0] == 'S' && "SD"@[1] == 'D');
            assert("GB"@[0] == 'G' && "GB"@[1] == 'B');
            assert("UK"@[0] == 'U' && "UK"@[1] == 'K');
            assert("US"@[0] == 'U' && "US"@[1] == 'S');
            assert(r.view()["BH"@].cities@[0].gmt@ =~= seq!["GMT+3"]);
            assert(r.view()["BH"@].cities@[1].gmt@ =~= seq!["GMT+3"]);
            assert(r.view()["CA"@].cities@[0].gmt@ =~= seq!["GMT-5", "GMT-4"]);
            assert(r.view()["CA"@].cities@[1].gmt@ =~= seq!["GMT-5", "GMT-4"]);
            assert(r.view()["DZ"@].cities@[0].gmt@ =~= seq!["GMT+1"]);
            assert(r.view()["DZ"@].cities@[1].gmt@ =~= seq!["GMT+1"]);
            assert(r.view()["SA"@].cities@[0].gmt@ =~= seq!["GMT+3"]);
            assert(r.view()["SA"@].cities@[1].gmt@ =~= seq!["GMT+3"]);
            assert(r.view()["SD"@].cities@[0].gmt@ =~= seq!["GMT+2"]);
            assert(r.view()["SD"@].cities@[1].gmt@ =~= seq!["GMT+2"]);
            assert(r.view()["SD"@].cities@[2].gmt@ =~= seq!["GMT+2"]);
            assert(r.view()["GB"@].cities@[0].gmt@ =~= seq!["GMT+0", "GMT+1"]);
            assert(r.view()["GB"@].cities@[1].gmt@ =~= seq!["GMT+0", "GMT+1"]);
            assert(r.view()["UK"@].cities@[0].gmt@ =~= seq!["GMT+0", "GMT+1"]);
            assert(r.view()["UK"@].cities@[1].gmt@ =~= seq!["GMT+0", "GMT+1"]);
            assert(r.view()["US"@].cities@[0].gmt@ =~= seq!["GMT-5", "GMT-4"]);
            assert(r.view()["US"@].cities@[1].gmt@ =~= seq!["GMT-5", "GMT-4"]);
        }
        r
    }

    /// Well-formedness of the underlying map.
    pub closed spec fn wf(&self) -> bool {
        self.data.wf()
    }

    /// The countries by short code.
    pub closed spec fn view(&self) -> Map<Seq<char>, Details<'a>> {
        self.data@
    }

    /// The countries in the order in which they were first stored.
    pub closed spec fn countries(&self) -> Seq<Details<'a>> {
        self.data.entries().map_values(|p: (String, Details<'a>)| p.1)
    }

    /// The countries as a map keyed by short code.
    pub fn retrieve(&self) -> (r: &StrMap<Details<'a>>)
        requires
            self.wf(),
        ensures
            r.wf(),
            r@ == self.view(),
    {
        &self.data
    }

    /// Stores the country `short_name` with `details` (flag, calling code,
    /// name, currency, capital) and `cities`, replacing any earlier record.
    pub fn insert_one(&mut self, short_name: &'a str, details: Vec<&'a str>, cities: Vec<City<'a>>)
        requires
            old(self).wf(),
            details.len() >= 5,
        ensures
            final(self).wf(),
            final(self).view() == old(self).view().insert(short_name@, details_of(details@, cities)),
    {
        let d = Details {
            flag: details[0],
            calling_code: details[1],
            name: details[2],
            currency: details[3],
            capital: details[4],
            cities,
        };
        self.data.insert(String::from_str(short_name), d);
    }

    /// Stores each entry in turn, as [`Country::insert_one`] does.
    pub fn insert_many(&mut self, entries: Vec<(&'a str, Vec<&'a str>, Vec<City<'a>>)>)
        requires
            old(self).wf(),
            forall|i: int| 0 <= i < entries.len() ==> (#[trigger] entries@[i]).1.len() >= 5,
        ensures
            final(self).wf(),
            final(self).view() == with_entries(old(self).view(), entries@),
    {
        let ghost all = entries@;
        assert(all.take(0) =~= Seq::<(&'a str, Vec<&'a str>, Vec<City<'a>>)>::empty());
        for entry in it: entries.into_iter()
            invariant
                self.wf(),
                it.seq() == all,
                forall|i: int| 0 <= i < all.len() ==> (#[trigger] all[i]).1.len() >= 5,
                self.view() == with_entries(old(self).view(), all.take(it.index() as int)),
        {
            let ghost i = it.index() as int;
            assert(entry == all[i]);
            let (short_name, details, cities) = entry;
            self.insert_one(short_name, details, cities);
            assert(all.take(i + 1).drop_last() =~= all.take(i));
        }
        assert(all.take(all.len() as int) =~= all);
    }

    /// Takes the record of `code` out of the map, to be changed and put
    /// back with [`Country::restore`].
    fn take_record(&mut self, code: &str) -> (r: Option<Details<'a>>)
        requires
            old(self).wf(),
        ensures
            final(self).wf(),
            final(self).view() == old(self).view().remove(code@),
            match r {
                Some(d) => old(self).view().contains_key(code@) && d == old(self).view()[code@],
                None => !old(self).view().contains_key(code@),
            },
    {
        self.data.remove(code)
    }

    /// Puts back a record taken with [`Country::take_record`].
    fn restore(&mut self, code: &str, d: Details<'a>)
        requires
            old(self).wf(),
        ensures
            final(self).wf(),
            final(self).view() == old(self).view().insert(code@, d),
    {
        self.data.insert(String::from_str(code), d);
    }

    /// Puts `new_city` into the country `country_code`: in place of the
    /// first city of the same name, or at the end. Nothing happens when
    /// there is no such country.
    pub fn insert_one_city(&mut self, country_code: &str, new_city: City<'a>)
        requires
            old(self).wf(),
        ensures
            final(self).wf(),
            old(self).view().contains_key(country_code@) ==> cities_set(
                old(self).view(),
                final(self).view(),
                country_code@,
                with_city(old(self).view()[country_code@].cities@, new_city),
            ),
            !old(self).view().contains_key(country_code@) ==> final(self).view() == old(self).view(),
    {
        if let Some(mut d) = self.take_record(country_code) {
            put_city(&mut d.cities, new_city);
            self.restore(country_code, d);
            assert(final(self).view().dom() =~= old(self).view().dom());
        }
    }

    /// Puts each of `new_cities` into the country `country_code`, in order,
    /// as [`Country::insert_one_city`] does.
    pub fn insert_many_cities(&mut self, country_code: &str, new_cities: Vec<City<'a>>)
        requires
            old(self).wf(),
        ensures
            final(self).wf(),
            old(self).view().contains_key(country_code@) ==> cities_set(
                old(self).view(),
                final(self).view(),
                country_code@,
                with_cities(old(self).view()[country_code@].cities@, new_cities@),
            ),
            !old(self).view().contains_key(country_code@) ==> final(self).view() == old(self).view(),
    {
        if let Some(mut d) = self.take_record(country_code) {
            let ghost start = d.cities@;
            let ghost news = new_cities@;
            assert(news.take(0) =~= Seq::<City<'a>>::empty());
            for c in it: new_cities.into_iter()
                invariant
                    it.seq() == news,
                    d.cities@ == with_cities(start, news.take(it.index() as int)),
                    same_header(d, old(self).view()[country_code@]),
                    start == old(self).view()[country_code@].cities@,
            {
                let ghost i = it.index() as int;
                assert(c == news[i]);
                put_city(&mut d.cities, c);
                assert(news.take(i + 1).drop_last() =~= news.take(i));
            }
            assert(news.take(news.len() as int) =~= news);
            self.restore(country_code, d);
            assert(final(self).view().dom() =~= old(self).view().dom());
        }
    }

    /// Removes the cities named `city_name` from the country `country_code`.
    pub fn delete_one_city(&mut self, country_code: &str, city_name: &str)
        requires
            old(self).wf(),
        ensures
            final(self).wf(),
            old(self).view().contains_key(country_code@) ==> cities_set(
                old(self).view(),
                final(self).view(),
                country_code@,
                kept_cities(old(self).view()[country_code@].cities@, seq![city_name@]),
            ),
            !old(self).view().contains_key(country_code@) ==> final(self).view() == old(self).view(),
    {
        let names = [city_name];
        assert(name_views(names@) =~= seq![city_name@]);
        self.delete_many_cities(country_code, &names);
    }

    /// Removes the cities whose names are among `city_names` from the
    /// country `country_code`.
    pub fn delete_many_cities(&mut self, country_code: &str, city_names: &[&str])
        requires
            old(self).wf(),
        ensures
            final(self).wf(),
            old(self).view().contains_key(country_code@) ==> cities_set(
                old(self).view(),
                final(self).view(),
                country_code@,
                kept_cities(old(self).view()[country_code@].cities@, name_views(city_names@)),
            ),
            !old(self).view().contains_key(country_code@) ==> final(self).view() == old(self).view(),
    {
        if let Some(mut d) = self.take_record(country_code) {
            let mut cities: Vec<City<'a>> = Vec::new();
            std::mem::swap(&mut cities, &mut d.cities);
            d.cities = keep_cities(cities, city_names);
            self.restore(country_code, d);
            assert(final(self).view().dom() =~= old(self).view().dom());
        }
    }

    /// Removes every city of the country `country_code`.
    pub fn delete_all_cities(&mut self, country_code: &str)
        requires
            old(self).wf(),
        ensures
            final(self).wf(),
            old(self).view().contains_key(country_code@) ==> cities_set(
                old(self).view(),
                final(self).view(),
                country_code@,
                Seq::empty(),
            ),
            !old(self).view().contains_key(country_code@) ==> final(self).view() == old(self).view(),
    {
        if let Some(mut d) = self.take_record(country_code) {
            d.cities = Vec::new();
            self.restore(country_code, d);
            assert(final(self).view().dom() =~= old(self).view().dom());
        }
    }

    /// Removes the country `short_name`.
    pub fn delete_one(&mut self, short_name: &str)
        requires
            old(self).wf(),
        ensures
            final(self).wf(),
            final(self).view() == old(self).view().remove(short_name@),
    {
        self.data.remove(short_name);
    }

    /// Removes every country among `short_names`.
    pub fn delete_many(&mut self, short_names: &[&str])
        requires
            old(self).wf(),
        ensures
            final(self).wf(),
            final(self).view() == old(self).view().remove_keys(name_views(short_names@).to_set()),
    {
        let ghost nv = name_views(short_names@);
        let mut i: usize = 0;
        assert(nv.take(0).to_set() =~= Set::<Seq<char>>::empty());
        assert(old(self).view() =~= old(self).view().remove_keys(nv.take(0).to_set()));
        while i < short_names.len()
            invariant
                self.wf(),
                nv == name_views(short_names@),
                i <= short_names.len(),
                self.view() == old(self).view().remove_keys(nv.take(i as int).to_set()),
            decreases short_names.len() - i,
        {
            self.data.remove(short_names[i]);
            assert(nv.take(i + 1) =~= nv.take(i as int).push(nv[i as int]));
            proof { nv.take(i as int).lemma_push_to_set_commute(nv[i as int]); }
            assert(self.view() =~= old(self).view().remove_keys(nv.take(i + 1).to_set()));
            i = i + 1;
        }
        assert(nv.take(short_names.len() as int) =~= nv);
    }

    /// Removes every country.
    pub fn delete_all(&mut self)
        ensures
            final(self).wf(),
            final(self).view() == Map::<Seq<char>, Details<'a>>::empty(),
    {
        self.data.clear();
    }

    /// The countries in order of name, ascending (`descending` unset) or
    /// descending.
    fn sorted(&self, descending: bool) -> (r: Vec<&Details<'a>>)
        requires
            self.wf(),
        ensures
            r@.map_values(|d: &Details<'a>| *d).to_multiset() == self.countries().to_multiset(),
            forall|i: int, j: int|
                0 <= i < j < r@.len() ==> !before(*r@[j], *r@[i], descending),
    {
        broadcast use vstd::seq_lib::to_multiset_insert, vstd::seq_lib::to_multiset_build;

        let e = self.data.as_vec();
        let ghost src = self.countries();
        let mut r: Vec<&Details<'a>> = Vec::new();
        let mut i: usize = 0;
        assert(src.take(0) =~= Seq::<Details<'a>>::empty());
        assert(r@.map_values(|d: &Details<'a>| *d) =~= Seq::<Details<'a>>::empty());
        while i < e.len()
            invariant
                e@ == self.data.entries(),
                src == self.countries(),
                i <= e.len(),
                r@.map_values(|d: &Details<'a>| *d).to_multiset() == src.take(i as int).to_multiset(),
                forall|a: int, b: int| 0 <= a < b < r@.len() ==> !before(*r@[b], *r@[a], descending),
            decreases e.len() - i,
        {
            let x: &Details<'a> = &e[i].1;
            let mut p: usize = 0;
            while p < r.len() && !before_exec(x, r[p], descending)
                invariant
                    p <= r@.len(),
                    forall|k: int| 0 <= k < p ==> !before(*x, *r@[k], descending),
                decreases r@.len() - p,
            {
                p = p + 1;
            }
            let ghost old_r = r@;
            r.insert(p, x);
            proof {
                assert forall|a: int, b: int| 0 <= a < b < r@.len() implies !before(
                    *r@[b],
                    *r@[a],
                    descending,
                ) by {
                    if a < p && b == p {
                    } else if a == p as int {
                        assert(r@[b] == old_r[b - 1]);
                        if before(*old_r[b - 1], *x, descending) {
                            lemma_before_asym(*x, *old_r[p as int], descending);
                            if b - 1 > p {
                                lemma_before_trans(*old_r[b - 1], *x, *old_r[p as int], descending);
                            }
                        }
                    } else {
                        let a0 = if a < p { a } else { a - 1 };
                        let b0 = if b < p { b } else { b - 1 };
                        assert(r@[a] == old_r[a0] && r@[b] == old_r[b0]);
                    }
                }
                assert(*x == src[i as int]);
                let ghost f = |d: &Details<'a>| *d;
                assert(r@.map_values(f) =~= old_r.map_values(f).insert(p as int, *x));
                vstd::seq_lib::to_multiset_insert(old_r.map_values(f), p as int, *x);
                assert(src.take(i + 1) =~= src.take(i as int).push(src[i as int]));
                vstd::seq_lib::to_multiset_build(src.take(i as int), src[i as int]);
            }
            i = i + 1;
        }
        assert(src.take(e.len() as int) =~= src);
        r
    }

    /// The countries in ascending order of name: each stored record once
    /// (see [`Country::lemma_countries`]).
    pub fn sort_asc(&self) -> (r: Vec<&Details<'a>>)
        requires
            self.wf(),
        ensures
            r@.map_values(|d: &Details<'a>| *d).to_multiset() == self.countries().to_multiset(),
            forall|i: int, j: int|
                0 <= i < j < r@.len() ==> !name_lt(r@[j].name@, r@[i].name@),
    {
        let r = self.sorted(false);
        assert forall|i: int, j: int| 0 <= i < j < r@.len() implies !name_lt(r@[j].name@, r@[i].name@) by {
            assert(!before(*r@[j], *r@[i], false));
        }
        r
    }

    /// The countries in descending order of name: each stored record once
    /// (see [`Country::lemma_countries`]).
    pub fn sort_desc(&self) -> (r: Vec<&Details<'a>>)
        requires
            self.wf(),
        ensures
            r@.map_values(|d: &Details<'a>| *d).to_multiset() == self.countries().to_multiset(),
            forall|i: int, j: int|
                0 <= i < j < r@.len() ==> !name_lt(r@[i].name@, r@[j].name@),
    {
        let r = self.sorted(true);
        assert forall|i: int, j: int| 0 <= i < j < r@.len() implies !name_lt(r@[i].name@, r@[j].name@) by {
            assert(!before(*r@[j], *r@[i], true));
        }
        r
    }

    /// The short codes of the countries, in the order of [`Country::countries`].
    pub closed spec fn codes(&self) -> Seq<Seq<char>> {
        self.data.entries().map_values(|p: (String, Details<'a>)| p.0@)
    }

    /// Relates the list of countries to the map: the map is finite, and
    /// the list holds the record of each of its codes once.
    pub proof fn lemma_countries(&self)
        requires
            self.wf(),
        ensures
            self.view().dom().finite(),
            self.countries().len() == self.view().len(),
            self.codes().len() == self.countries().len(),
            forall|i: int|
                0 <= i < self.codes().len() ==> self.view().contains_key(#[trigger] self.codes()[i])
                    && self.view()[self.codes()[i]] == self.countries()[i],
            forall|i: int, j: int|
                0 <= i < self.codes().len() && 0 <= j < self.codes().len() && i != j
                    ==> #[trigger] self.codes()[i] != #[trigger] self.codes()[j],
            forall|k: Seq<char>|
                #[trigger] self.view().contains_key(k) ==> exists|i: int|
                    0 <= i < self.codes().len() && #[trigger] self.codes()[i] == k,
    {
        self.data.lemma_entries();
        let e = self.data.entries();
        let c = self.codes();
        assert forall|i: int| 0 <= i < c.len() implies self.view().contains_key(#[trigger] c[i])
            && self.view()[c[i]] == self.countries()[i] by {
            lemma_map_of_at(e, i);
        }
        assert forall|i: int, j: int| 0 <= i < c.len() && 0 <= j < c.len() && i != j
            implies #[trigger] c[i] != #[trigger] c[j] by {
            assert(e[i].0@ != e[j].0@);
        }
        assert forall|k: Seq<char>| #[trigger] self.view().contains_key(k) implies exists|i: int|
            0 <= i < c.len() && #[trigger] c[i] == k by {
            let i = choose|i: int| 0 <= i < e.len() && (#[trigger] e[i]).0@ == k;
            assert(c[i] == k);
        }
    }

    /// One detail of the country `country_code` (see [`country_field`]);
    /// empty when there is no such country.
    pub fn country_detail(&self, country_code: &str, key: &str) -> (r: String)
        requires
            self.wf(),
        ensures
            r@ == if self.view().contains_key(country_code@) {
                country_field(self.view()[country_code@], key@)
            } else {
                Seq::empty()
            },
    {
        match self.data.get(country_code) {
            Some(d) => {
                if str_eq(key, "flag") {
                    String::from_str(d.flag)
                } else if str_eq(key, "calling_code") {
                    String::from_str(d.calling_code)
                } else if str_eq(key, "name") {
                    String::from_str(d.name)
                } else if str_eq(key, "currency") {
                    String::from_str(d.currency)
                } else if str_eq(key, "capital") {
                    String::from_str(d.capital)
                } else if str_eq(key, "cities") {
                    let mut r = String::from_str("[");
                    push_cities_json(&mut r, &d.cities);
                    push_str(&mut r, "]");
                    r
                } else {
                    String::new()
                }
            },
            None => String::new(),
        }
    }

    /// The record of the country `country_code` as a JSON object (see
    /// [`country_json`]); one with empty fields when there is no such
    /// country.
    pub fn country_details(&self, country_code: &str) -> (r: String)
        requires
            self.wf(),
        ensures
            r@ == if self.view().contains_key(country_code@) {
                country_json(self.view()[country_code@])
            } else {
                "{ \"flag\": \"\", \"calling_code\": \"\", \"name\": \"\", \"capital\": \"\", \"currency\": \"\", \"cities\": [] }"@
            },
    {
        match self.data.get(country_code) {
            Some(d) => {
                let mut r = String::from_str("{ \"flag\": \"");
                push_str(&mut r, d.flag);
                push_str(&mut r, "\", \"calling_code\": \"");
                push_str(&mut r, d.calling_code);
                push_str(&mut r, "\", \"name\": \"");
                push_str(&mut r, d.name);
                push_str(&mut r, "\", \"capital\": \"");
                push_str(&mut r, d.capital);
                push_str(&mut r, "\", \"currency\": \"");
                push_str(&mut r, d.currency);
                push_str(&mut r, "\", \"cities\": [");
                push_cities_json(&mut r, &d.cities);
                push_str(&mut r, "] }");
                assert(r@ =~= country_json(*d));
                r
            },
            None => String::from_str(
                "{ \"flag\": \"\", \"calling_code\": \"\", \"name\": \"\", \"capital\": \"\", \"currency\": \"\", \"cities\": [] }",
            ),
        }
    }

    /// One detail of the first city named `city_name` in the country
    /// `country_code` (see [`city_field`]); empty when there is none.
    pub fn city_detail(&self, country_code: &str, city_name: &str, key: &str) -> (r: String)
        requires
            self.wf(),
        ensures
            r@ == match self.city(country_code@, city_name@) {
                Some(c) => city_field(c, key@),
                None => Seq::empty(),
            },
    {
        match self.data.get(country_code) {
            Some(d) => match find_city(&d.cities, city_name) {
                Some(i) => {
                    let c = &d.cities[i];
                    if str_eq(key, "gmt") {
                        join_plain(&c.gmt)
                    } else if str_eq(key, "latitude") {
                        String::from_str(c.latitude)
                    } else if str_eq(key, "longitude") {
                        String::from_str(c.longitude)
                    } else if str_eq(key, "altitude") {
                        String::from_str(c.altitude)
                    } else if str_eq(key, "name") {
                        String::from_str(c.name)
                    } else {
                        String::new()
                    }
                },
                None => String::new(),
            },
            None => String::new(),
        }
    }

    /// The first city named `city_name` in the country `country_code` as a
    /// JSON object (see [`city_json`]); one with empty fields when there is
    /// none.
    pub fn city_details(&self, country_code: &str, city_name: &str) -> (r: String)
        requires
            self.wf(),
        ensures
            r@ == match self.city(country_code@, city_name@) {
                Some(c) => city_json(c),
                None => "{ \"name\": \"\", \"gmt\": [], \"latitude\": \"\", \"longitude\": \"\", \"altitude\": \"\" }"@,
            },
    {
        if let Some(d) = self.data.get(country_code) {
            if let Some(i) = find_city(&d.cities, city_name) {
                let mut r = String::new();
                push_city_json(&mut r, &d.cities[i]);
                assert(r@ =~= city_json(d.cities@[i as int]));
                return r;
            }
        }
        String::from_str(
            "{ \"name\": \"\", \"gmt\": [], \"latitude\": \"\", \"longitude\": \"\", \"altitude\": \"\" }",
        )
    }

    /// The first city named `name` in the country `code`, if there is one.
    pub open spec fn city(&self, code: Seq<char>, name: Seq<char>) -> Option<City<'a>> {
        if self.view().contains_key(code) && city_pos(self.view()[code].cities@, name) >= 0 {
            Some(self.view()[code].cities@[city_pos(self.view()[code].cities@, name)])
        } else {
            None
        }
    }
}

/// Lexicographic order of names by the characters' code points, which is
/// the order of their UTF-8 bytes.
pub open spec fn name_lt(a: Seq<char>, b: Seq<char>) -> bool
    decreases a.len(),
{
    if a.len() == 0 {
        b.len() > 0
    } else if b.len() == 0 {
        false
    } else if a[0] != b[0] {
        (a[0] as u32) < (b[0] as u32)
    } else {
        name_lt(a.drop_first(), b.drop_first())
    }
}

/// Whether `x` goes strictly before `y` when sorting by name.
pub open spec fn before(x: Details, y: Details, descending: bool) -> bool {
    if descending {
        name_lt(y.name@, x.name@)
    } else {
        name_lt(x.name@, y.name@)
    }
}

proof fn lemma_lt_trans(a: Seq<char>, b: Seq<char>, c: Seq<char>)
    requires
        name_lt(a, b),
        name_lt(b, c),
    ensures
        name_lt(a, c),
    decreases a.len(),
{
    if a.len() > 0 && b.len() > 0 && c.len() > 0 && a[0] == b[0] && b[0] == c[0] {
        lemma_lt_trans(a.drop_first(), b.drop_first(), c.drop_first());
    }
}

proof fn lemma_lt_asym(a: Seq<char>, b: Seq<char>)
    requires
        name_lt(a, b),
    ensures
        !name_lt(b, a),
    decreases a.len(),
{
    if a.len() > 0 && b.len() > 0 && a[0] == b[0] {
        lemma_lt_asym(a.drop_first(), b.drop_first());
    }
}

proof fn lemma_before_trans(x: Details, y: Details, z: Details, descending: bool)
    requires
        before(x, y, descending),
        before(y, z, descending),
    ensures
        before(x, z, descending),
{
    if descending {
        lemma_lt_trans(z.name@, y.name@, x.name@);
    } else {
        lemma_lt_trans(x.name@, y.name@, z.name@);
    }
}

proof fn lemma_before_asym(x: Details, y: Details, descending: bool)
    requires
        before(x, y, descending),
    ensures
        !before(y, x, descending),
{
    if descending {
        lemma_lt_asym(y.name@, x.name@);
    } else {
        lemma_lt_asym(x.name@, y.name@);
    }
}

/// Whether `a` comes before `b` in the order of names.
fn name_lt_exec(a: &str, b: &str) -> (r: bool)
    ensures
        r == name_lt(a@, b@),
{
    let x = crate::text::chars_of(a);
    let y = crate::text::chars_of(b);
    let mut i: usize = 0;
    assert(x@.skip(0) =~= x@);
    assert(y@.skip(0) =~= y@);
    loop
        invariant
            i <= x.len(),
            i <= y.len(),
            x@ == a@,
            y@ == b@,
            name_lt(a@, b@) == name_lt(x@.skip(i as int), y@.skip(i as int)),
        decreases x.len() - i,
    {
        if i == x.len() {
            return y.len() > i;
        }
        if i == y.len() {
            return false;
        }
        if x[i] != y[i] {
            return (x[i] as u32) < (y[i] as u32);
        }
        assert(x@.skip(i as int).drop_first() =~= x@.skip(i + 1));
        assert(y@.skip(i as int).drop_first() =~= y@.skip(i + 1));
        i = i + 1;
    }
}

fn before_exec(x: &Details, y: &Details, descending: bool) -> (r: bool)
    ensures
        r == before(*x, *y, descending),
{
    if descending {
        name_lt_exec(y.name, x.name)
    } else {
        name_lt_exec(x.name, y.name)
    }
}

/// Texts joined by `sep`, with none at either end.
pub open spec fn joined(items: Seq<Seq<char>>, sep: Seq<char>) -> Seq<char>
    decreases items.len(),
{
    if items.len() == 0 {
        Seq::empty()
    } else if items.len() == 1 {
        items[0]
    } else {
        joined(items.drop_last(), sep) + sep + items.last()
    }
}

/// A list of names as JSON: each quoted, joined by `, `, in brackets.
pub open spec fn quoted_list(g: Seq<&str>) -> Seq<char> {
    seq!['['] + joined(g.map_values(|s: &str| quoted(s@)), seq![',', ' ']) + seq![']']
}

/// A city as a JSON object.
pub open spec fn city_json(c: City) -> Seq<char> {
    "{ \"name\": \""@ + c.name@ + "\", \"gmt\": "@ + quoted_list(c.gmt@) + ", \"latitude\": \""@
        + c.latitude@ + "\", \"longitude\": \""@ + c.longitude@ + "\", \"altitude\": \""@
        + c.altitude@ + "\" }"@
}

/// Cities as JSON objects joined by `, `.
pub open spec fn cities_json(cs: Seq<City>) -> Seq<char> {
    joined(cs.map_values(|c: City| city_json(c)), seq![',', ' '])
}

/// A country record as a JSON object.
pub open spec fn country_json(d: Details) -> Seq<char> {
    "{ \"flag\": \""@ + d.flag@ + "\", \"calling_code\": \""@ + d.calling_code@
        + "\", \"name\": \""@ + d.name@ + "\", \"capital\": \""@ + d.capital@
        + "\", \"currency\": \""@ + d.currency@ + "\", \"cities\": ["@ + cities_json(d.cities@)
        + "] }"@
}

/// One detail of a country by key: `flag`, `calling_code`, `name`,
/// `currency`, `capital`, or `cities` (a JSON array of its cities); empty
/// for any other key.
pub open spec fn country_field(d: Details, key: Seq<char>) -> Seq<char> {
    if key == "flag"@ {
        d.flag@
    } else if key == "calling_code"@ {
        d.calling_code@
    } else if key == "name"@ {
        d.name@
    } else if key == "currency"@ {
        d.currency@
    } else if key == "capital"@ {
        d.capital@
    } else if key == "cities"@ {
        "["@ + cities_json(d.cities@) + "]"@
    } else {
        Seq::empty()
    }
}

/// One detail of a city by key: `gmt` (its offsets joined by `, `),
/// `latitude`, `longitude`, `altitude` or `name`; empty for any other key.
pub open spec fn city_field(c: City, key: Seq<char>) -> Seq<char> {
    if key == "gmt"@ {
        joined(c.gmt@.map_values(|s: &str| s@), seq![',', ' '])
    } else if key == "latitude"@ {
        c.latitude@
    } else if key == "longitude"@ {
        c.longitude@
    } else if key == "altitude"@ {
        c.altitude@
    } else if key == "name"@ {
        c.name@
    } else {
        Seq::empty()
    }
}

/// The texts of `g` joined by `, `.
fn join_plain(g: &Vec<&str>) -> (r: String)
    ensures
        r@ == joined(g@.map_values(|s: &str| s@), seq![',', ' ']),
{
    let ghost items = g@.map_values(|s: &str| s@);
    let mut r = String::new();
    let mut i: usize = 0;
    assert(items.take(0) =~= Seq::<Seq<char>>::empty());
    while i < g.len()
        invariant
            items == g@.map_values(|s: &str| s@),
            i <= g.len(),
            r@ == joined(items.take(i as int), seq![',', ' ']),
        decreases g.len() - i,
    {
        if i > 0 {
            push_str(&mut r, ", ");
            proof { reveal_strlit(", "); }
        }
        push_str(&mut r, g[i]);
        assert(items.take(i + 1).drop_last() =~= items.take(i as int));
        assert(items.take(i + 1).last() == items[i as int]);
        assert(r@ =~= joined(items.take(i + 1), seq![',', ' ']));
        i = i + 1;
    }
    assert(items.take(g.len() as int) =~= items);
    r
}

/// Appends the JSON list of the names `g`.
fn push_quoted_list(out: &mut String, g: &Vec<&str>)
    ensures
        final(out)@ == old(out)@ + quoted_list(g@),
{
    let ghost items = g@.map_values(|s: &str| quoted(s@));
    push_str(out, "[");
    proof { reveal_strlit("["); }
    let ghost start = out@;
    let mut i: usize = 0;
    assert(items.take(0) =~= Seq::<Seq<char>>::empty());
    while i < g.len()
        invariant
            items == g@.map_values(|s: &str| quoted(s@)),
            i <= g.len(),
            out@ == start + joined(items.take(i as int), seq![',', ' ']),
        decreases g.len() - i,
    {
        if i > 0 {
            push_str(out, ", ");
            proof { reveal_strlit(", "); }
        }
        push_quoted(out, g[i]);
        assert(items.take(i + 1).drop_last() =~= items.take(i as int));
        assert(items.take(i + 1).last() == items[i as int]);
        assert(out@ =~= start + joined(items.take(i + 1), seq![',', ' ']));
        i = i + 1;
    }
    assert(items.take(g.len() as int) =~= items);
    push_str(out, "]");
    proof { reveal_strlit("]"); }
    assert(final(out)@ =~= old(out)@ + quoted_list(g@));
}

/// Appends the JSON object of `c`.
fn push_city_json(out: &mut String, c: &City)
    ensures
        final(out)@ == old(out)@ + city_json(*c),
{
    push_str(out, "{ \"name\": \"");
    push_str(out, c.name);
    push_str(out, "\", \"gmt\": ");
    push_quoted_list(out, &c.gmt);
    push_str(out, ", \"latitude\": \"");
    push_str(out, c.latitude);
    push_str(out, "\", \"longitude\": \"");
    push_str(out, c.longitude);
    push_str(out, "\", \"altitude\": \"");
    push_str(out, c.altitude);
    push_str(out, "\" }");
    assert(final(out)@ =~= old(out)@ + city_json(*c));
}

/// Appends the JSON objects of `cs`, joined by `, `.
fn push_cities_json(out: &mut String, cs: &Vec<City>)
    ensures
        final(out)@ == old(out)@ + cities_json(cs@),
{
    let ghost items = cs@.map_values(|c: City| city_json(c));
    let ghost start = out@;
    let mut i: usize = 0;
    assert(items.take(0) =~= Seq::<Seq<char>>::empty());
    while i < cs.len()
        invariant
            items == cs@.map_values(|c: City| city_json(c)),
            i <= cs.len(),
            out@ == start + joined(items.take(i as int), seq![',', ' ']),
        decreases cs.len() - i,
    {
        if i > 0 {
            push_str(out, ", ");
            proof { reveal_strlit(", "); }
        }
        push_city_json(out, &cs[i]);
        assert(items.take(i + 1).drop_last() =~= items.take(i as int));
        assert(items.take(i + 1).last() == items[i as int]);
        assert(out@ =~= start + joined(items.take(i + 1), seq![',', ' ']));
        i = i + 1;
    }
    assert(items.take(cs.len() as int) =~= items);
    assert(final(out)@ =~= old(out)@ + cities_json(cs@));
}

} // verus!
