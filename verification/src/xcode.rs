use crate::process::strs;
use crate::ui::{json_field, json_get, json_of, parse_json, Json};
use crate::text::{chars_of, push_char, push_str, str_eq, string_of};
use vstd::prelude::*;

verus! {

/// Whether `s` is `.`.
pub open spec fn is_dot(s: Seq<char>) -> bool {
    s == seq!['.']
}

/// Index just past the last path component of `p[0..end]` that is neither
/// empty nor `.`, with the index where that component starts; `None` when
/// there is none.
pub open spec fn last_component(p: Seq<char>, end: int) -> Option<(int, int)>
    decreases end,
{
    if end <= 0 {
        None
    } else if p[end - 1] == '/' {
        last_component(p, end - 1)
    } else {
        let start = segment_start(p, end);
        proof {
            lemma_segment_start_le(p, end - 1);
        }
        if is_dot(p.subrange(start, end)) {
            last_component(p, start)
        } else {
            Some((start, end))
        }
    }
}

/// The start of the path segment that ends at `end`.
pub open spec fn segment_start(p: Seq<char>, end: int) -> int
    decreases end,
{
    if end <= 0 {
        0
    } else if p[end - 1] == '/' {
        end
    } else {
        segment_start(p, end - 1)
    }
}

/// `Path::file_name`: the last normal component of a path.
pub open spec fn file_name(p: Seq<char>) -> Option<Seq<char>> {
    match last_component(p, p.len() as int) {
        None => None,
        Some((s, e)) => if p.subrange(s, e) == seq!['.', '.'] {
            None
        } else {
            Some(p.subrange(s, e))
        },
    }
}

/// Index of the last `.` in `f`.
pub open spec fn last_dot(f: Seq<char>, n: int) -> Option<int>
    decreases n,
{
    if n <= 0 {
        None
    } else if f[n - 1] == '.' {
        Some(n - 1)
    } else {
        last_dot(f, n - 1)
    }
}

/// `Path::extension`: what follows the last `.` of the file name, unless
/// that dot starts the name.
pub open spec fn extension(p: Seq<char>) -> Option<Seq<char>> {
    match file_name(p) {
        None => None,
        Some(f) => match last_dot(f, f.len() as int) {
            None => None,
            Some(i) => if i == 0 {
                None
            } else {
                Some(f.skip(i + 1))
            },
        },
    }
}

pub proof fn lemma_segment_start_le(p: Seq<char>, end: int)
    ensures
        segment_start(p, end) <= (if end < 0 { 0 } else { end }),
        segment_start(p, end) >= 0,
        end > 0 && p[end - 1] != '/' ==> segment_start(p, end) == segment_start(p, end - 1),
    decreases end,
{
    if end > 0 && p[end - 1] != '/' {
        lemma_segment_start_le(p, end - 1);
    }
}

proof fn lemma_segment_start(p: Seq<char>, end: int)
    requires
        0 <= end <= p.len(),
    ensures
        0 <= segment_start(p, end) <= end,
        segment_start(p, end) > 0 ==> p[segment_start(p, end) - 1] == '/',
        forall|k: int| segment_start(p, end) <= k < end ==> p[k] != '/',
    decreases end,
{
    if end > 0 && p[end - 1] != '/' {
        lemma_segment_start(p, end - 1);
    }
}

proof fn lemma_last_component(p: Seq<char>, end: int)
    requires
        0 <= end <= p.len(),
    ensures
        last_component(p, end) matches Some((s, e)) ==> 0 <= s < e <= end,
    decreases end,
{
    if end > 0 {
        if p[end - 1] == '/' {
            lemma_last_component(p, end - 1);
        } else {
            lemma_segment_start(p, end);
            let start = segment_start(p, end);
            if is_dot(p.subrange(start, end)) {
                lemma_last_component(p, start);
            }
        }
    }
}

fn find_segment_start(v: &Vec<char>, end: usize) -> (r: usize)
    requires
        end <= v.len(),
    ensures
        r == segment_start(v@, end as int),
{
    let mut i = end;
    while i > 0 && v[i - 1] != '/'
        invariant
            i <= end <= v.len(),
            segment_start(v@, end as int) == segment_start(v@, i as int),
        decreases i,
    {
        i -= 1;
    }
    i
}

fn find_last_component(v: &Vec<char>) -> (r: Option<(usize, usize)>)
    ensures
        match last_component(v@, v.len() as int) {
            None => r is None,
            Some((s, e)) => r matches Some((a, b)) && a as int == s && b as int == e,
        },
{
    let mut end = v.len();
    loop
        invariant
            end <= v.len(),
            last_component(v@, v.len() as int) == last_component(v@, end as int),
        decreases end,
    {
        if end == 0 {
            return None;
        }
        if v[end - 1] == '/' {
            end -= 1;
        } else {
            let start = find_segment_start(v, end);
            proof {
                lemma_segment_start(v@, end as int);
            }
            if end - start == 1 && v[start] == '.' {
                assert(v@.subrange(start as int, end as int) =~= seq!['.']);
                end = start;
            } else {
                proof {
                    if is_dot(v@.subrange(start as int, end as int)) {
                        assert(v@.subrange(start as int, end as int)[0] == v@[start as int]);
                        assert(v@.subrange(start as int, end as int).len() == 1);
                    }
                    assert(!is_dot(v@.subrange(start as int, end as int)));
                    assert(last_component(v@, end as int) == Some((start as int, end as int)));
                }
                return Some((start, end));
            }
        }
    }
}

/// The extension of a path, when it has one.
pub fn path_extension(path: &str) -> (r: Option<String>)
    ensures
        match extension(path@) {
            None => r is None,
            Some(x) => r matches Some(s) && s@ == x,
        },
{
    let v = chars_of(path);
    proof {
        lemma_last_component(v@, v.len() as int);
    }
    let (s, e) = match find_last_component(&v) {
        None => {
            return None;
        },
        Some(c) => c,
    };
    let ghost f = v@.subrange(s as int, e as int);
    if e - s == 2 && v[s] == '.' && v[s + 1] == '.' {
        assert(f =~= seq!['.', '.']);
        return None;
    }
    proof {
        if f == seq!['.', '.'] {
            assert(f[0] == v@[s as int] && f[1] == v@[s + 1]);
        }
    }
    let mut i = e;
    while i > s && v[i - 1] != '.'
        invariant
            s <= i <= e <= v.len(),
            f == v@.subrange(s as int, e as int),
            last_dot(f, f.len() as int) == last_dot(f, i - s),
        decreases i,
    {
        assert(f[i - s - 1] == v@[i - 1]);
        i -= 1;
    }
    if i == s {
        return None;
    }
    assert(f[i - s - 1] == v@[i - 1]);
    if i - 1 == s {
        return None;
    }
    assert(f.skip(i - s) =~= v@.subrange(i as int, e as int));
    Some(string_of(&v, i, e))
}

/// Whether a path names an Xcode workspace.
pub fn is_workspace(path: &str) -> (r: bool)
    ensures
        r == (extension(path@) == Some("xcworkspace"@)),
{
    match path_extension(path) {
        Some(x) => str_eq(x.as_str(), "xcworkspace"),
        None => false,
    }
}

/// Whether a path names an Xcode project or workspace.
pub fn is_container(path: &str) -> (r: bool)
    ensures
        r == (extension(path@) == Some("xcworkspace"@) || extension(path@) == Some(
            "xcodeproj"@,
        )),
{
    match path_extension(path) {
        Some(x) => str_eq(x.as_str(), "xcworkspace") || str_eq(x.as_str(), "xcodeproj"),
        None => false,
    }
}

/// The `xcodebuild` arguments that select a project or workspace.
pub fn project_args(project: &str) -> (r: Vec<String>)
    ensures
        strs(r@) == seq![
            if extension(project@) == Some("xcworkspace"@) {
                "-workspace"@
            } else {
                "-project"@
            },
            project@,
        ],
{
    let flag = if is_workspace(project) {
        String::from_str("-workspace")
    } else {
        String::from_str("-project")
    };
    let r = vec![flag, String::from_str(project)];
    assert(strs(r@) =~= seq![
        if extension(project@) == Some("xcworkspace"@) {
            "-workspace"@
        } else {
            "-project"@
        },
        project@,
    ]);
    r
}

/// Why no single Xcode container was found.
#[derive(Debug, Clone, Copy, PartialEq, Eq)]
pub enum DiscoverError {
    NoProject,
    MultipleProjects,
}

/// Chooses the container of a directory: its one workspace if it has
/// workspaces, else its one project.
pub fn choose_container(projects: Vec<String>, workspaces: Vec<String>) -> (r: Result<
    String,
    DiscoverError,
>)
    ensures
        ({
            let c = if workspaces.len() == 0 {
                projects@
            } else {
                workspaces@
            };
            &&& c.len() == 1 ==> r == Ok::<String, DiscoverError>(c[0])
            &&& c.len() == 0 ==> r == Err::<String, DiscoverError>(DiscoverError::NoProject)
            &&& c.len() > 1 ==> r == Err::<String, DiscoverError>(DiscoverError::MultipleProjects)
        }),
{
    let mut candidates = if workspaces.len() == 0 {
        projects
    } else {
        workspaces
    };
    if candidates.len() == 1 {
        let c = candidates.remove(0);
        Ok(c)
    } else if candidates.len() == 0 {
        Err(DiscoverError::NoProject)
    } else {
        Err(DiscoverError::MultipleProjects)
    }
}

/// `items` joined by `sep`.
pub open spec fn joined(items: Seq<Seq<char>>, sep: Seq<char>) -> Seq<char>
    decreases items.len(),
{
    if items.len() == 0 {
        seq![]
    } else if items.len() == 1 {
        items[0]
    } else {
        joined(items.drop_last(), sep) + sep + items.last()
    }
}

/// `items` joined by `, `.
pub fn join_comma(items: &[String]) -> (r: String)
    ensures
        r@ == joined(strs(items@), seq![',', ' ']),
{
    let mut s = String::new();
    let mut i: usize = 0;
    proof {
        assert(strs(items@).take(0) =~= Seq::<Seq<char>>::empty());
    }
    while i < items.len()
        invariant
            i <= items.len(),
            s@ == joined(strs(items@).take(i as int), seq![',', ' ']),
        decreases items.len() - i,
    {
        if i > 0 {
            push_char(&mut s, ',');
            push_char(&mut s, ' ');
        }
        push_str(&mut s, items[i].as_str());
        proof {
            let t = strs(items@).take(i + 1);
            assert(t.drop_last() =~= strs(items@).take(i as int));
            assert(t.last() == items@[i as int]@);
            if i == 0 {
                assert(t =~= seq![items@[0]@]);
                assert(s@ =~= items@[0]@);
            } else {
                assert(s@ =~= joined(t.drop_last(), seq![',', ' ']) + seq![',', ' '] + t.last());
            }
        }
        i += 1;
    }
    proof {
        assert(strs(items@).take(items.len() as int) =~= strs(items@));
    }
    s
}

/// Why no scheme was chosen; each lists the schemes there are.
#[derive(Debug)]
pub enum SchemeError {
    Unknown { name: String, available: String },
    Unspecified { available: String },
}

impl SchemeError {
    /// The error as text.
    pub fn message(&self) -> (r: String)
        ensures
            match self {
                SchemeError::Unknown { name, available } => r@ == "Unknown scheme "@ + name@
                    + "; available: "@ + available@,
                SchemeError::Unspecified { available } => r@ == "Specify --scheme; available: "@
                    + available@,
            },
    {
        match self {
            SchemeError::Unknown { name, available } => {
                let mut s = String::from_str("Unknown scheme ");
                push_str(&mut s, name.as_str());
                push_str(&mut s, "; available: ");
                push_str(&mut s, available.as_str());
                s
            },
            SchemeError::Unspecified { available } => {
                let mut s = String::from_str("Specify --scheme; available: ");
                push_str(&mut s, available.as_str());
                s
            },
        }
    }
}

/// Chooses the scheme to build: the requested one if the project has it,
/// else the project's only scheme.
pub fn select_scheme(schemes: &[String], requested: Option<&str>) -> (r: Result<
    String,
    SchemeError,
>)
    ensures
        match requested {
            Some(name) => {
                &&& strs(schemes@).contains(name@) ==> (r matches Ok(s) && s@ == name@)
                &&& !strs(schemes@).contains(name@) ==> (r matches Err(
                    SchemeError::Unknown { name: n, available: a },
                ) && n@ == name@ && a@ == joined(strs(schemes@), seq![',', ' ']))
            },
            None => {
                &&& schemes.len() == 1 ==> (r matches Ok(s) && s@ == schemes@[0]@)
                &&& schemes.len() != 1 ==> (r matches Err(SchemeError::Unspecified { available: a })
                    && a@ == joined(strs(schemes@), seq![',', ' ']))
            },
        },
{
    match requested {
        Some(name) => {
            if crate::process::contains_string(schemes, name) {
                Ok(String::from_str(name))
            } else {
                Err(
                    SchemeError::Unknown {
                        name: String::from_str(name),
                        available: join_comma(schemes),
                    },
                )
            }
        },
        None => {
            if schemes.len() == 1 {
                Ok(schemes[0].clone())
            } else {
                Err(SchemeError::Unspecified { available: join_comma(schemes) })
            }
        },
    }
}

/// The build settings of one target that locate its product.
#[derive(Debug)]
pub struct TargetSettings {
    pub product_type: Option<String>,
    pub target_build_dir: Option<String>,
    pub full_product_name: Option<String>,
}

/// `PathBuf::from(dir).join(name)`: `name` itself when it is absolute,
/// else `dir` and `name` with one separator between them.
pub open spec fn path_join(dir: Seq<char>, name: Seq<char>) -> Seq<char> {
    if name.len() > 0 && name[0] == '/' {
        name
    } else if dir.len() == 0 || dir.last() == '/' {
        dir + name
    } else {
        dir + seq!['/'] + name
    }
}

/// The product path of a target that builds an application.
pub open spec fn app_path(t: TargetSettings) -> Option<Seq<char>> {
    match (t.product_type, t.target_build_dir, t.full_product_name) {
        (Some(ty), Some(d), Some(n)) => if ty@ == "com.apple.product-type.application"@ {
            Some(path_join(d@, n@))
        } else {
            None
        },
        _ => None,
    }
}

/// The product paths of the application targets, in order.
pub open spec fn app_paths(ts: Seq<TargetSettings>) -> Seq<Seq<char>>
    decreases ts.len(),
{
    if ts.len() == 0 {
        seq![]
    } else {
        match app_path(ts.last()) {
            Some(p) => app_paths(ts.drop_last()).push(p),
            None => app_paths(ts.drop_last()),
        }
    }
}

pub fn join_path(dir: &str, name: &str) -> (r: String)
    ensures
        r@ == path_join(dir@, name@),
{
    let n = chars_of(name);
    if n.len() > 0 && n[0] == '/' {
        return String::from_str(name);
    }
    let d = chars_of(dir);
    let mut s = String::from_str(dir);
    if !(d.len() == 0 || d[d.len() - 1] == '/') {
        push_char(&mut s, '/');
    }
    push_str(&mut s, name);
    s
}

/// The application a build produced: the one target whose product type is
/// an application. Otherwise the number of application targets found.
pub fn app_from_targets(targets: &[TargetSettings]) -> (r: Result<String, usize>)
    ensures
        app_paths(targets@).len() == 1 ==> (r matches Ok(p) && p@ == app_paths(targets@)[0]),
        app_paths(targets@).len() != 1 ==> r == Err::<String, usize>(
            app_paths(targets@).len() as usize,
        ),
{
    let mut apps: Vec<String> = Vec::new();
    let mut i: usize = 0;
    proof {
        assert(targets@.take(0) =~= Seq::<TargetSettings>::empty());
    }
    while i < targets.len()
        invariant
            i <= targets.len(),
            strs(apps@) == app_paths(targets@.take(i as int)),
        decreases targets.len() - i,
    {
        let t = &targets[i];
        proof {
            let tk = targets@.take(i + 1);
            assert(tk.drop_last() =~= targets@.take(i as int));
            assert(tk.last() == targets@[i as int]);
        }
        match (&t.product_type, &t.target_build_dir, &t.full_product_name) {
            (Some(ty), Some(d), Some(n)) => {
                if str_eq(ty.as_str(), "com.apple.product-type.application") {
                    let ghost before = apps@;
                    apps.push(join_path(d.as_str(), n.as_str()));
                    assert(strs(apps@) =~= strs(before).push(path_join(d@, n@)));
                }
            },
            _ => {},
        }
        i += 1;
    }
    proof {
        assert(targets@.take(targets.len() as int) =~= targets@);
        assert(strs(apps@).len() == apps.len());
    }
    if apps.len() == 1 {
        Ok(apps.remove(0))
    } else {
        Err(apps.len())
    }
}

/// Why an `xcodebuild -list -json` listing gave no schemes.
#[derive(Debug, Clone, Copy, PartialEq, Eq)]
pub enum ListingError {
    /// The listing is not JSON.
    InvalidJson,
    /// Neither `workspace.schemes` nor `project.schemes` is there as an
    /// array.
    NoSchemes,
}

impl ListingError {
    /// The error as text.
    pub fn message(&self) -> (r: &'static str)
        ensures
            r@ == match self {
                ListingError::InvalidJson => "Xcode returned invalid JSON"@,
                ListingError::NoSchemes => "Xcode returned no schemes"@,
            },
    {
        match self {
            ListingError::InvalidJson => "Xcode returned invalid JSON",
            ListingError::NoSchemes => "Xcode returned no schemes",
        }
    }
}

/// `value.pointer("/outer/inner")`.
pub open spec fn json_at2(value: Json, outer: Seq<char>, inner: Seq<char>) -> Option<Json> {
    match json_get(value, outer) {
        Some(x) => json_get(x, inner),
        None => None,
    }
}

/// The strings among `items`, in order.
pub open spec fn string_items(items: Seq<Json>) -> Seq<Seq<char>>
    decreases items.len(),
{
    if items.len() == 0 {
        seq![]
    } else {
        match items.last() {
            Json::Str(t) => string_items(items.drop_last()).push(t@),
            _ => string_items(items.drop_last()),
        }
    }
}

/// The schemes of a decoded listing: the strings of `workspace.schemes`,
/// else of `project.schemes`, which must be an array.
pub open spec fn listing_schemes(listing: Json) -> Result<Seq<Seq<char>>, ListingError> {
    let found = match json_at2(listing, "workspace"@, "schemes"@) {
        Some(x) => Some(x),
        None => json_at2(listing, "project"@, "schemes"@),
    };
    match found {
        Some(Json::Array(items)) => Ok(string_items(items@)),
        _ => Err(ListingError::NoSchemes),
    }
}

/// The schemes an `xcodebuild -list -json` listing names.
pub fn schemes_in_listing(text: &str) -> (r: Result<Vec<String>, ListingError>)
    ensures
        match json_of(text@) {
            None => r == Err::<Vec<String>, ListingError>(ListingError::InvalidJson),
            Some(listing) => match listing_schemes(listing) {
                Ok(names) => r matches Ok(v) && strs(v@) == names,
                Err(e) => r == Err::<Vec<String>, ListingError>(e),
            },
        },
{
    let listing = match parse_json(text) {
        Some(j) => j,
        None => {
            return Err(ListingError::InvalidJson);
        },
    };
    let from_workspace = match json_field(&listing, "workspace") {
        Some(w) => json_field(w, "schemes"),
        None => None,
    };
    let found = match from_workspace {
        Some(x) => Some(x),
        None => match json_field(&listing, "project") {
            Some(p) => json_field(p, "schemes"),
            None => None,
        },
    };
    let items = match found {
        Some(Json::Array(items)) => items,
        _ => {
            return Err(ListingError::NoSchemes);
        },
    };
    let mut names: Vec<String> = Vec::new();
    let mut i: usize = 0;
    while i < items.len()
        invariant
            i <= items.len(),
            strs(names@) == string_items(items@.take(i as int)),
        decreases items.len() - i,
    {
        proof {
            assert(items@.take(i + 1).drop_last() =~= items@.take(i as int));
            assert(items@.take(i + 1).last() == items@[i as int]);
        }
        match &items[i] {
            Json::Str(t) => {
                let ghost before = strs(names@);
                names.push(t.clone());
                assert(strs(names@) =~= before.push(t@));
            },
            _ => {},
        }
        i += 1;
    }
    assert(items@.take(items.len() as int) =~= items@);
    Ok(names)
}

/// The application-type marker of `PRODUCT_TYPE`.
pub open spec fn application_type() -> Seq<char> {
    "com.apple.product-type.application"@
}

/// `value[key].as_str()`: the string entry `key` of an object.
pub open spec fn json_str_at(value: Json, key: Seq<char>) -> Option<Seq<char>> {
    match json_get(value, key) {
        Some(Json::Str(t)) => Some(t@),
        _ => None,
    }
}

/// The product path of one entry of `xcodebuild -showBuildSettings -json`,
/// if its `buildSettings` name an application with a build directory and
/// a product name.
pub open spec fn settings_app_path(entry: Json) -> Option<Seq<char>> {
    match json_get(entry, "buildSettings"@) {
        Some(s) => match (
            json_str_at(s, "PRODUCT_TYPE"@),
            json_str_at(s, "TARGET_BUILD_DIR"@),
            json_str_at(s, "FULL_PRODUCT_NAME"@),
        ) {
            (Some(ty), Some(d), Some(n)) => if ty == application_type() {
                Some(path_join(d, n))
            } else {
                None
            },
            _ => None,
        },
        None => None,
    }
}

/// The product paths of the application entries, in order.
pub open spec fn settings_app_paths(entries: Seq<Json>) -> Seq<Seq<char>>
    decreases entries.len(),
{
    if entries.len() == 0 {
        seq![]
    } else {
        match settings_app_path(entries.last()) {
            Some(p) => settings_app_paths(entries.drop_last()).push(p),
            None => settings_app_paths(entries.drop_last()),
        }
    }
}

/// Why no single application was found in build settings.
#[derive(Debug, Clone, Copy, PartialEq, Eq)]
pub enum SettingsError {
    /// The settings are not a JSON array.
    InvalidJson,
    /// This many application targets were found, not one.
    AppCount(usize),
}

impl SettingsError {
    /// The error as text.
    pub fn message(&self) -> (r: String)
        ensures
            r@ == match self {
                SettingsError::InvalidJson => "Xcode returned invalid build settings"@,
                SettingsError::AppCount(n) => "Expected one application target, found "@
                    + crate::text::decimal(*n as nat) + "; choose an app scheme"@,
            },
    {
        match self {
            SettingsError::InvalidJson => String::from_str("Xcode returned invalid build settings"),
            SettingsError::AppCount(n) => {
                let mut s = String::from_str("Expected one application target, found ");
                crate::text::push_decimal(&mut s, *n as u64);
                push_str(&mut s, "; choose an app scheme");
                s
            },
        }
    }
}

/// The string entry `key` of an object.
fn str_field<'a>(value: &'a Json, key: &str) -> (r: Option<&'a String>)
    ensures
        match json_str_at(*value, key@) {
            Some(t) => r matches Some(x) && x@ == t,
            None => r is None,
        },
{
    match json_field(value, key) {
        Some(Json::Str(t)) => Some(t),
        _ => None,
    }
}

/// The application a build produced, from the text of `xcodebuild
/// -showBuildSettings -json`: the one target whose product type is an
/// application, as its build directory joined with its product name.
pub fn app_from_settings(settings: &str) -> (r: Result<String, SettingsError>)
    ensures
        match json_of(settings@) {
            Some(Json::Array(entries)) => {
                let paths = settings_app_paths(entries@);
                &&& paths.len() == 1 ==> (r matches Ok(p) && p@ == paths[0])
                &&& paths.len() != 1 ==> r == Err::<String, SettingsError>(
                    SettingsError::AppCount(paths.len() as usize),
                )
            },
            _ => r == Err::<String, SettingsError>(SettingsError::InvalidJson),
        },
{
    let parsed = parse_json(settings);
    let entries = match &parsed {
        Some(Json::Array(entries)) => entries,
        _ => {
            return Err(SettingsError::InvalidJson);
        },
    };
    let mut apps: Vec<String> = Vec::new();
    let mut i: usize = 0;
    while i < entries.len()
        invariant
            i <= entries.len(),
            strs(apps@) == settings_app_paths(entries@.take(i as int)),
        decreases entries.len() - i,
    {
        proof {
            assert(entries@.take(i + 1).drop_last() =~= entries@.take(i as int));
            assert(entries@.take(i + 1).last() == entries@[i as int]);
        }
        if let Some(s) = json_field(&entries[i], "buildSettings") {
            match (
                str_field(s, "PRODUCT_TYPE"),
                str_field(s, "TARGET_BUILD_DIR"),
                str_field(s, "FULL_PRODUCT_NAME"),
            ) {
                (Some(ty), Some(d), Some(n)) => {
                    if str_eq(ty.as_str(), "com.apple.product-type.application") {
                        let ghost before = strs(apps@);
                        apps.push(join_path(d.as_str(), n.as_str()));
                        assert(strs(apps@) =~= before.push(path_join(d@, n@)));
                    }
                },
                _ => {},
            }
        }
        i += 1;
    }
    proof {
        assert(entries@.take(entries.len() as int) =~= entries@);
        assert(strs(apps@).len() == apps.len());
    }
    if apps.len() == 1 {
        Ok(apps.remove(0))
    } else {
        Err(SettingsError::AppCount(apps.len()))
    }
}

} // verus!
