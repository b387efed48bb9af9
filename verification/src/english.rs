//! Reference data on English text.

use vstd::prelude::*;

verus! {

/// Common English words, one on each line.
pub const POPULAR_ENGLISH_WORDS: &'static str = "the
of
and
to
a
in
is
it
you
that
he
was
for
on
are
with
as
I
his
they
be
at
one
have
this
from
or
had
by
hot
word
but
what
some
we
can
out
other
were
all
there
when
up
use
your
how
said
an
each
she
which
do
their
time
if
will
way
about
many
then
them
write
would
like
so
these
her
long
make
thing
see
him
two
has
look
more
day
could
go
come
did
number
sound
no
most
people
my
over
know
water
than
call
first
who
may
down
side
been
now
find
any
new
work
part
take
get
place
made
live
where
after
back
little
only
round
man
year
came
show
every
good
me
give
our
under
name
very
through
just
form
sentence
great
think
say
help
low
line
differ
turn
cause
much
mean
before
move
right
boy
old
too
same
tell
does
set
three
want
air
well
also
play
small
end
put
home
read
hand
large
spell
add
even
land
here
must
big
high
such
follow
act
why
ask
men
change
went
light
kind
off
need
house
picture
try
us
again
animal
point
mother
world
near
build
self
earth
father
head
stand
own
page
should
country
found
answer
school
grow
study
still
learn
plant
cover
food
sun
four
between
state
keep
eye
never
last
let
thought
city
tree
cross
farm
hard
start
might
story
saw
far
sea
draw
left
late
run
don't
while
press
close
night
real
life
few
north
open
seem
together
next
white
children
begin
got
walk
example
ease
paper
group
always
music
those
both
mark
often
letter
until
mile
river
car
feet
care
second
book
carry
took
science
eat
room
friend
began
idea
fish
mountain
stop
once
base
hear
horse
cut
sure
watch
color
face
wood
main
enough
plain
girl
usual
young
ready
above
ever
red
list
though
feel
talk
bird
soon
body
dog
family
direct
pose
leave
song
measure
door
product
black
short
numeral
class
wind
question
happen
complete
ship
area
half
rock
order
fire
south
problem
piece
told
knew
pass
since
top
whole
king
space
heard
best
hour
better
true
during
hundred
five
remember
step
early
hold
west
ground
interest
reach
fast
verb
sing
listen
six
table
travel
less
morning
ten
simple
several
vowel
toward
war
lay
against
pattern
slow
center
love
person
money
serve
appear
road
map
rain
rule
govern
pull
cold
notice
voice
unit
power
town
fine
certain
fly
fall
lead
cry
dark
machine
note
wait
plan
figure
star
box
noun
field
rest
correct
able
pound
done
beauty
drive
stood
contain
front
teach
week
final
gave
green
oh
quick
develop
ocean
warm
free
minute
strong
special
mind
behind
clear
tail
produce
fact
street
inch
multiply
nothing
course
stay
wheel
full
force
blue
object
decide
surface
deep
moon
island
foot
system
busy
test
record
boat
common
gold
possible
plane
stead
dry
wonder
laugh
thousand
ago
ran
game
shape
equate
miss
brought
heat
snow
tire
bring
yes
distant
fill
east
paint
language
among
grand
ball
yet
wave
drop
heart
am
present
heavy
dance
engine
position
arm
wide
sail
material
size
vary
settle
speak
weight
general
ice
matter
circle
pair
include
divide
syllable
felt
perhaps
pick
sudden
count
square
reason
length
represent
art
subject
region
energy
hunt
probable
bed
brother
egg
ride
cell
believe
fraction
forest
sit
race
window
store
summer
train
sleep
prove
lone
leg
exercise
wall
catch
mount
wish
sky
board
joy
winter
sat
written
wild
instrument
kept
glass
grass
cow
job
edge
sign
visit
past
soft
fun
bright
gas
weather
month
million
bear
finish
happy
hope
flower
clothe
strange
gone
jump
baby
eight
village
meet
root
buy
raise
solve
metal
whether
push
seven
paragraph
third
shall
held
hair
describe
cook
floor
either
result
burn
hill
safe
cat
century
consider
type
law
bit
coast
copy
phrase
silent
tall
sand
soil
roll
temperature
finger
industry
value
fight
lie
beat
excite
natural
view
sense
ear
else
quite
broke
case
middle
kill
son
lake
moment
scale
loud
spring
observe
child
straight
consonant
nation
dictionary
milk
speed
method
organ
pay
age
section
dress
cloud
surprise
quiet
stone
tiny
climb
cool
design
poor
lot
experiment
bottom
key
iron
single
stick
flat
twenty
skin
smile
crease
hole
trade
melody
trip
office
receive
row
mouth
exact
symbol
die
least
trouble
shout
except
wrote
seed
tone
join
suggest
clean
break
lady
yard
rise
bad
blow
oil
blood
touch
grew
cent
mix
team
wire
cost
lost
brown
wear
garden
equal
sent
choose
fell
fit
flow
fair
bank
collect
save
control
decimal
gentle
woman
captain
practice
separate
difficult
doctor
please
protect
noon
whose
locate
ring
character
insect
caught
period
indicate
radio
spoke
atom
human
history
effect
electric
expect
crop
modern
element
hit
student
corner
party
supply
bone
rail
imagine
provide
agree
thus
capital
won't
chair
danger
fruit
rich
thick
soldier
process
operate
guess
necessary
sharp
wing
create
neighbor
wash
bat
rather
crowd
corn
compare
poem
string
bell
depend
meat
rub
tube
famous
dollar
stream
fear
sight
thin
triangle
planet
hurry
chief
colony
clock
mine
tie
enter
major
fresh
search
send
yellow
gun
allow
print
dead
spot
desert
suit
current
lift
rose
continue
block
chart
hat
sell
success
company
subtract
event
particular
deal
swim
term
opposite
wife
shoe
shoulder
spread
arrange
camp
invent
cotton
born
determine
quart
nine
truck
noise
level
chance
gather
shop
stretch
throw
shine
property
column
molecule
select
wrong
gray
repeat
require
broad
prepare
salt
nose
plural
anger
claim
continent
oxygen
sugar
death
pretty
skill
women
season
solution
magnet
silver
thank
branch
match
suffix
especially
fig
afraid
huge
sister
steel
discuss
forward
similar
guide
experience
score
apple
bought
led
pitch
coat
mass
card
band
rope
slip
win
dream
evening
condition
feed
tool
total
basic
smell
valley
nor
double
seat
arrive
master
track
parent
shore
division
sheet
substance
favor
connect
post
spend
chord
fat
glad
share
station
dad
bread
charge
proper
bar
offer
segment
slave
duck
instant
market
degree
populate
chick
dear
enemy
reply
drink
occur
support
speech
nature
range
steam
motion
path
liquid
log
meant
quotient
teeth
shell
neck
hello
fox
lazy
jumps
secret
message
attack
dawn
cipher
code
text
ancient
manuscript
being
having
doing
I'm
it's
that's
there's
what's
let's
didn't
doesn't
isn't
aren't
wasn't
weren't
haven't
hasn't
hadn't
can't
couldn't
wouldn't
shouldn't
you're
we're
they're
I've
you've
we've
they've
I'll
you'll
he'll
she'll
we'll
they'll
today
tomorrow
yesterday
Monday
Tuesday
Wednesday
Thursday
Friday
Saturday
Sunday
January
February
March
April
May
June
July
August
September
October
November
December
zero
eleven
twelve
thirty
forty
fifty
sixty
seventy
eighty
ninety
";

/// The denominator of the relative frequencies in [`FREQUENCY_TABLE`].
pub const FREQUENCY_SCALE: u32 = 1_000_000_000;

/// For each of the 128 ASCII codes, in ascending order, the relative
/// frequency of its character in English text, in parts of
/// [`FREQUENCY_SCALE`]. The table is taken as it is: its entries need not add
/// up to the scale.
pub const FREQUENCY_TABLE: [u32; 128] = [
    0, 0, 0, 0, // codes 0 to 3
    0, 63, 0, 0, // codes 4 to 7
    0, 0, 19_578_061, 0, // codes 8 to 11
    0, 0, 0, 0, // codes 12 to 15
    0, 0, 0, 0, // codes 16 to 19
    0, 0, 0, 0, // codes 20 to 23
    0, 0, 0, 63, // codes 24 to 27
    0, 0, 63, 0, // codes 28 to 31
    167_564_444, 507, 1_575_428, 0, // SPACE ! " #
    507, 0, 2028, 1_507_862, // $ % & '
    330_792, 331_425, 444, 1521, // ( ) * +
    8_634_492, 2_076_717, 11_055_185, 519_607, // , - . /
    5_918_946, 4_937_789, 2_756_238, 2_186_559, // 0 1 2 3
    1_838_527, 2_526_921, 1_919_910, 1_824_330, // 4 5 6 7
    2_532_664, 2_442_243, 120_363, 7416, // 8 9 : ;
    441_077, 254, 440_443, 4627, // < = > ?
    63, 2_477_483, 1_738_700, 2_987_393, // @ A B C
    1_092_772, 1_293_821, 1_220_297, 931_021, // D E F G
    875_245, 2_091_042, 881_456, 380_800, // H I J K
    1_004_481, 1_813_491, 1_275_883, 821_053, // L M N O
    1_389_084, 100_017, 1_103_737, 3_089_692, // P Q R S
    3_070_106, 1_042_637, 255_620, 804_827, // T U V W
    65_727, 251_944, 86_200, 697, // X Y Z [
    0, 634, 2218, 127, // \ ] ^ _
    0, 61_255_400, 10_346_445, 25_002_689, // ` a b c
    31_889_481, 86_102_295, 15_750_347, 12_804_660, // d e f g
    26_192_373, 54_806_262, 617_596, 4_945_712, // h i j k
    32_181_926, 18_140_173, 55_037_036, 54_190_441, // l m n o
    17_362_093, 1_008_537, 51_525_029, 51_886_498, // p q r s
    63_296_496, 19_247_776, 7_819_144, 9_565_830, // t u v w
    2_306_414, 10_893_687, 576_271, 63, // x y z {
    0, 0, 190, 3106, // | } ~ DEL
];

} // verus!
